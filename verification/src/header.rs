//! The universal box header: a 4-byte declared size (counting the header
//! itself plus payload) followed by a 4-byte type tag.

use vstd::prelude::*;
use crate::boxtype::{spec_type_code, spec_type_of_code, BoxType};
use crate::bytes::{
    be_u32_at, get_u32, lemma_be_u32_round_trip, put_u32, u32_be_bytes,
};
use crate::error::BoxError;

verus! {

/// Byte length of the box header.
pub const HEADER_SIZE: u64 = 8;

#[derive(Clone, Copy, Debug, PartialEq, Eq, Structural)]
pub struct BoxHeader {
    pub name: BoxType,
    pub size: u64,
}

/// The header whose eight bytes start at `pos`; meaningful only when those
/// bytes exist.
pub open spec fn spec_header_at(data: Seq<u8>, pos: int) -> BoxHeader
    recommends
        0 <= pos,
        pos + 8 <= data.len(),
{
    BoxHeader {
        size: be_u32_at(data, pos) as u64,
        name: spec_type_of_code(be_u32_at(data, pos + 4)),
    }
}

pub open spec fn spec_read_header(data: Seq<u8>, pos: int) -> Result<BoxHeader, BoxError> {
    if 0 <= pos && pos + 8 <= data.len() {
        Ok(spec_header_at(data, pos))
    } else {
        Err(BoxError::Framing)
    }
}

/// The eight bytes a header encodes to; meaningful only when the declared
/// size fits the 4-byte size field.
pub open spec fn spec_header_bytes(h: BoxHeader) -> Seq<u8>
    recommends
        h.size <= u32::MAX,
{
    u32_be_bytes(h.size as u32) + u32_be_bytes(spec_type_code(h.name))
}

/// A tag that decodes back to itself: every recognized tag, and an unknown
/// tag whose code is not one of the recognized codes.
pub open spec fn tag_canonical(t: BoxType) -> bool {
    spec_type_of_code(spec_type_code(t)) == t
}

impl BoxHeader {
    pub fn new(name: BoxType, size: u64) -> (r: BoxHeader)
        ensures
            r == (BoxHeader { name, size }),
    {
        BoxHeader { name, size }
    }

    /// Decodes the header whose first byte stands at `pos`; fails with a
    /// framing error when fewer than eight bytes remain.
    pub fn read(data: &Vec<u8>, pos: usize) -> (r: Result<BoxHeader, BoxError>)
        ensures
            r == spec_read_header(data@, pos as int),
    {
        let n = data.len();
        if n < 8 || pos > n - 8 {
            return Err(BoxError::Framing);
        }
        let size = get_u32(data, pos) as u64;
        let code = get_u32(data, pos + 4);
        Ok(BoxHeader { name: BoxType::from_code(code), size })
    }

    /// Appends the eight header bytes; fails with `FieldOverflow` when the
    /// declared size does not fit the 4-byte size field, leaving the output
    /// untouched.
    pub fn write(&self, out: &mut Vec<u8>) -> (r: Result<(), BoxError>)
        ensures
            self.size <= u32::MAX ==> r == Ok::<(), BoxError>(()) && final(out)@ == old(out)@
                + spec_header_bytes(*self),
            self.size > u32::MAX ==> r == Err::<(), BoxError>(BoxError::FieldOverflow)
                && final(out)@ == old(out)@,
    {
        if self.size > u32::MAX as u64 {
            return Err(BoxError::FieldOverflow);
        }
        put_u32(out, self.size as u32);
        put_u32(out, self.name.code());
        proof {
            assert(out@ =~= old(out)@ + spec_header_bytes(*self));
        }
        Ok(())
    }
}

/// Reading a header where one was written recovers it, provided its size fit
/// the 4-byte field and its tag is canonical.
pub proof fn lemma_header_round_trip(data: Seq<u8>, pos: int, h: BoxHeader)
    requires
        0 <= pos,
        pos + 8 <= data.len(),
        h.size <= u32::MAX,
        tag_canonical(h.name),
        data.subrange(pos, pos + 8) == spec_header_bytes(h),
    ensures
        spec_read_header(data, pos) == Ok::<BoxHeader, BoxError>(h),
        spec_header_at(data, pos) == h,
{
    let enc = spec_header_bytes(h);
    let a = u32_be_bytes(h.size as u32);
    let b = u32_be_bytes(spec_type_code(h.name));
    assert(data[pos] == enc[0] && data[pos + 1] == enc[1] && data[pos + 2] == enc[2] && data[pos
        + 3] == enc[3] && data[pos + 4] == enc[4] && data[pos + 5] == enc[5] && data[pos + 6]
        == enc[6] && data[pos + 7] == enc[7]) by {
        assert forall|k: int| 0 <= k < 8 implies data[pos + k] == enc[k] by {
            assert(data.subrange(pos, pos + 8)[k] == data[pos + k]);
        }
    }
    assert(enc[0] == a[0] && enc[1] == a[1] && enc[2] == a[2] && enc[3] == a[3]);
    assert(enc[4] == b[0] && enc[5] == b[1] && enc[6] == b[2] && enc[7] == b[3]);
    lemma_be_u32_round_trip(data, pos, h.size as u32);
    lemma_be_u32_round_trip(data, pos + 4, spec_type_code(h.name));
}

} // verus!
