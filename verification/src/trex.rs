//! The track-extends box: a fixed-layout leaf of five 32-bit defaults
//! following a version byte and a 3-byte flags field.

use vstd::prelude::*;
use crate::boxtype::BoxType;
use crate::bytes::{
    be_u24_at, be_u32_at, get_u24, get_u32, get_u8, lemma_be_u24_round_trip,
    lemma_be_u32_round_trip, put_u24, put_u32, put_u8, u24_be_bytes, u32_be_bytes,
};
use crate::error::BoxError;
use crate::header::{spec_header_bytes, BoxHeader, HEADER_SIZE};

verus! {

/// Wire size of a track-extends box: header, version and flags, and five
/// 32-bit fields.
pub const TREX_SIZE: u64 = 32;

#[derive(Clone, Copy, Debug, PartialEq, Eq, Structural)]
pub struct TrexBox {
    pub version: u8,
    pub flags: u32,
    pub track_id: u32,
    pub default_sample_description_index: u32,
    pub default_sample_duration: u32,
    pub default_sample_size: u32,
    pub default_sample_flags: u32,
}

/// The flags field must fit its 3-byte wire width.
pub open spec fn trex_encodable(t: TrexBox) -> bool {
    t.flags < 0x100_0000
}

/// Decoding a track-extends box from `pos` (just past its header) bounded by
/// its declared `size`; trailing bytes inside the declared size are
/// tolerated.
pub open spec fn spec_read_trex(data: Seq<u8>, pos: int, size: u64) -> Result<TrexBox, BoxError> {
    let start = pos - 8;
    if start < 0 || start + size > data.len() || size < TREX_SIZE {
        Err(BoxError::Framing)
    } else {
        Ok(
            TrexBox {
                version: data[pos],
                flags: be_u24_at(data, pos + 1),
                track_id: be_u32_at(data, pos + 4),
                default_sample_description_index: be_u32_at(data, pos + 8),
                default_sample_duration: be_u32_at(data, pos + 12),
                default_sample_size: be_u32_at(data, pos + 16),
                default_sample_flags: be_u32_at(data, pos + 20),
            },
        )
    }
}

/// The 32 bytes a track-extends box encodes to; meaningful only when
/// `trex_encodable` holds.
pub open spec fn spec_trex_bytes(t: TrexBox) -> Seq<u8>
    recommends
        trex_encodable(t),
{
    spec_header_bytes(BoxHeader { name: BoxType::TrexBox, size: TREX_SIZE }) + seq![t.version]
        + u24_be_bytes(t.flags) + u32_be_bytes(t.track_id) + u32_be_bytes(
        t.default_sample_description_index,
    ) + u32_be_bytes(t.default_sample_duration) + u32_be_bytes(t.default_sample_size)
        + u32_be_bytes(t.default_sample_flags)
}

impl TrexBox {
    pub fn get_type(&self) -> (r: BoxType)
        ensures
            r == BoxType::TrexBox,
    {
        BoxType::TrexBox
    }

    pub fn get_size(&self) -> (r: u64)
        ensures
            r == TREX_SIZE,
    {
        HEADER_SIZE + 4 + 20
    }

    /// Decodes the box whose payload starts at `pos`, just past its header;
    /// `size` is the declared size counted from the header.
    pub fn read_box(data: &Vec<u8>, pos: usize, size: u64) -> (r: Result<TrexBox, BoxError>)
        requires
            pos >= 8,
        ensures
            r == spec_read_trex(data@, pos as int, size),
    {
        let n = data.len();
        let start = pos - 8;
        if start > n || size > (n - start) as u64 || size < TREX_SIZE {
            return Err(BoxError::Framing);
        }
        Ok(
            TrexBox {
                version: get_u8(data, pos),
                flags: get_u24(data, pos + 1),
                track_id: get_u32(data, pos + 4),
                default_sample_description_index: get_u32(data, pos + 8),
                default_sample_duration: get_u32(data, pos + 12),
                default_sample_size: get_u32(data, pos + 16),
                default_sample_flags: get_u32(data, pos + 20),
            },
        )
    }

    /// Appends the encoded box and returns its size; fails with
    /// `FieldOverflow` when the flags field does not fit its 3-byte width,
    /// leaving the output untouched.
    pub fn write_box(&self, out: &mut Vec<u8>) -> (r: Result<u64, BoxError>)
        ensures
            trex_encodable(*self) ==> r == Ok::<u64, BoxError>(TREX_SIZE)
                && final(out)@ == old(out)@ + spec_trex_bytes(*self),
            !trex_encodable(*self) ==> r == Err::<u64, BoxError>(BoxError::FieldOverflow)
                && final(out)@ == old(out)@,
    {
        if self.flags >= 0x100_0000 {
            return Err(BoxError::FieldOverflow);
        }
        let header = BoxHeader::new(BoxType::TrexBox, TREX_SIZE);
        match header.write(out) {
            Ok(()) => {},
            Err(e) => {
                return Err(e);
            },
        }
        put_u8(out, self.version);
        put_u24(out, self.flags);
        put_u32(out, self.track_id);
        put_u32(out, self.default_sample_description_index);
        put_u32(out, self.default_sample_duration);
        put_u32(out, self.default_sample_size);
        put_u32(out, self.default_sample_flags);
        proof {
            assert(out@ =~= old(out)@ + spec_trex_bytes(*self));
        }
        Ok(TREX_SIZE)
    }
}

/// Decoding a track-extends box where one was encoded recovers it.
pub proof fn lemma_trex_round_trip(data: Seq<u8>, pos: int, t: TrexBox)
    requires
        8 <= pos,
        pos + 24 <= data.len(),
        trex_encodable(t),
        data.subrange(pos - 8, pos + 24) == spec_trex_bytes(t),
    ensures
        spec_read_trex(data, pos, TREX_SIZE) == Ok::<TrexBox, BoxError>(t),
{
    let enc = spec_trex_bytes(t);
    let lo = pos - 8;
    assert forall|k: int| 0 <= k < 32 implies data[lo + k] == enc[k] by {
        assert(data.subrange(pos - 8, pos + 24)[k] == data[lo + k]);
    }
    assert(data[pos] == enc[8]) by {
        assert(data[lo + 8] == enc[8]);
    }
    assert forall|j: int| 0 <= j < 3 implies data[pos + 1 + j] == u24_be_bytes(t.flags)[j] by {
        assert(data[lo + (9 + j)] == enc[9 + j]);
    }
    assert(data[pos + 1] == u24_be_bytes(t.flags)[0]) by {
        assert(data[pos + 1 + 0] == u24_be_bytes(t.flags)[0]);
    }
    lemma_be_u24_round_trip(data, pos + 1, t.flags);
    assert forall|j: int|
        0 <= j < 4 implies data[pos + 4 + j] == u32_be_bytes(t.track_id)[j] && data[pos + 8 + j]
        == u32_be_bytes(t.default_sample_description_index)[j] && data[pos + 12 + j]
        == u32_be_bytes(t.default_sample_duration)[j] && data[pos + 16 + j] == u32_be_bytes(
        t.default_sample_size,
    )[j] && data[pos + 20 + j] == u32_be_bytes(t.default_sample_flags)[j] by {
        assert(data[lo + (12 + j)] == enc[12 + j]);
        assert(data[lo + (16 + j)] == enc[16 + j]);
        assert(data[lo + (20 + j)] == enc[20 + j]);
        assert(data[lo + (24 + j)] == enc[24 + j]);
        assert(data[lo + (28 + j)] == enc[28 + j]);
    }
    assert(data[pos + 4] == u32_be_bytes(t.track_id)[0]) by {
        assert(data[pos + 4 + 0] == u32_be_bytes(t.track_id)[0]);
    }
    assert(data[pos + 8] == u32_be_bytes(t.default_sample_description_index)[0]) by {
        assert(data[pos + 8 + 0] == u32_be_bytes(t.default_sample_description_index)[0]);
    }
    assert(data[pos + 12] == u32_be_bytes(t.default_sample_duration)[0]) by {
        assert(data[pos + 12 + 0] == u32_be_bytes(t.default_sample_duration)[0]);
    }
    assert(data[pos + 16] == u32_be_bytes(t.default_sample_size)[0]) by {
        assert(data[pos + 16 + 0] == u32_be_bytes(t.default_sample_size)[0]);
    }
    assert(data[pos + 20] == u32_be_bytes(t.default_sample_flags)[0]) by {
        assert(data[pos + 20 + 0] == u32_be_bytes(t.default_sample_flags)[0]);
    }
    lemma_be_u32_round_trip(data, pos + 4, t.track_id);
    lemma_be_u32_round_trip(data, pos + 8, t.default_sample_description_index);
    lemma_be_u32_round_trip(data, pos + 12, t.default_sample_duration);
    lemma_be_u32_round_trip(data, pos + 16, t.default_sample_size);
    lemma_be_u32_round_trip(data, pos + 20, t.default_sample_flags);
}

} // verus!
