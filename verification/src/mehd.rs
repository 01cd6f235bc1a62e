//! The fragment-header-extension box: a leaf holding one duration whose wire
//! width follows the box's version byte.

use vstd::prelude::*;
use crate::boxtype::BoxType;
use crate::bytes::{
    be_u24_at, get_u24, get_u8, lemma_be_u24_round_trip, put_u24, put_u8, u24_be_bytes,
};
use crate::error::BoxError;
use crate::header::{spec_header_bytes, BoxHeader, HEADER_SIZE};
use crate::versioned::{
    get_versioned, lemma_versioned_round_trip, put_versioned, spec_versioned_at,
    spec_versioned_width, versioned_be_bytes, versioned_width,
};

verus! {

#[derive(Clone, Copy, Debug, PartialEq, Eq, Structural)]
pub struct MehdBox {
    pub version: u8,
    pub flags: u32,
    pub fragment_duration: u64,
}

/// Wire size: header, version and flags, and the versioned duration.
pub open spec fn spec_mehd_size(m: MehdBox) -> int {
    12 + spec_versioned_width(m.version)
}

/// The flags field must fit its 3-byte wire width.
pub open spec fn mehd_encodable(m: MehdBox) -> bool {
    m.flags < 0x100_0000
}

/// A value whose encoding decodes back to it: beyond `mehd_encodable`, the
/// version byte must be a declared variant and a version-0 duration must fit
/// 32 bits, since writing narrows it without check.
pub open spec fn mehd_valid(m: MehdBox) -> bool {
    &&& mehd_encodable(m)
    &&& m.version <= 1
    &&& (m.version == 1 || m.fragment_duration <= u32::MAX)
}

/// Decoding a fragment-header-extension box from `pos` (just past its
/// header) bounded by its declared `size`; trailing bytes inside the
/// declared size are tolerated.
pub open spec fn spec_read_mehd(data: Seq<u8>, pos: int, size: u64) -> Result<MehdBox, BoxError> {
    let start = pos - 8;
    if start < 0 || start + size > data.len() || size < 12 {
        Err(BoxError::Framing)
    } else {
        let version = data[pos];
        if size < 12 + spec_versioned_width(version) {
            Err(BoxError::Framing)
        } else {
            Ok(
                MehdBox {
                    version,
                    flags: be_u24_at(data, pos + 1),
                    fragment_duration: spec_versioned_at(data, pos + 4, version),
                },
            )
        }
    }
}

/// The bytes a fragment-header-extension box encodes to; meaningful only
/// when `mehd_encodable` holds.
pub open spec fn spec_mehd_bytes(m: MehdBox) -> Seq<u8>
    recommends
        mehd_encodable(m),
{
    spec_header_bytes(BoxHeader { name: BoxType::MehdBox, size: spec_mehd_size(m) as u64 })
        + seq![m.version] + u24_be_bytes(m.flags) + versioned_be_bytes(
        m.fragment_duration,
        m.version,
    )
}

impl MehdBox {
    pub fn get_type(&self) -> (r: BoxType)
        ensures
            r == BoxType::MehdBox,
    {
        BoxType::MehdBox
    }

    pub fn get_size(&self) -> (r: u64)
        ensures
            r == spec_mehd_size(*self),
    {
        HEADER_SIZE + 4 + (versioned_width(self.version) as u64)
    }

    /// Decodes the box whose payload starts at `pos`, just past its header;
    /// `size` is the declared size counted from the header.
    pub fn read_box(data: &Vec<u8>, pos: usize, size: u64) -> (r: Result<MehdBox, BoxError>)
        requires
            pos >= 8,
        ensures
            r == spec_read_mehd(data@, pos as int, size),
    {
        let n = data.len();
        let start = pos - 8;
        if start > n || size > (n - start) as u64 || size < 12 {
            return Err(BoxError::Framing);
        }
        let version = get_u8(data, pos);
        let width = versioned_width(version);
        if size < 12 + width as u64 {
            return Err(BoxError::Framing);
        }
        Ok(
            MehdBox {
                version,
                flags: get_u24(data, pos + 1),
                fragment_duration: get_versioned(data, pos + 4, version),
            },
        )
    }

    /// Appends the encoded box and returns its size; fails with
    /// `FieldOverflow` when the flags field does not fit its 3-byte width,
    /// leaving the output untouched. A version-0 duration is narrowed to its
    /// low 32 bits without check.
    pub fn write_box(&self, out: &mut Vec<u8>) -> (r: Result<u64, BoxError>)
        ensures
            mehd_encodable(*self) ==> r == Ok::<u64, BoxError>(spec_mehd_size(*self) as u64)
                && final(out)@ == old(out)@ + spec_mehd_bytes(*self),
            !mehd_encodable(*self) ==> r == Err::<u64, BoxError>(BoxError::FieldOverflow)
                && final(out)@ == old(out)@,
    {
        if self.flags >= 0x100_0000 {
            return Err(BoxError::FieldOverflow);
        }
        let size = self.get_size();
        let header = BoxHeader::new(BoxType::MehdBox, size);
        match header.write(out) {
            Ok(()) => {},
            Err(e) => {
                return Err(e);
            },
        }
        put_u8(out, self.version);
        put_u24(out, self.flags);
        put_versioned(out, self.fragment_duration, self.version);
        proof {
            assert(out@ =~= old(out)@ + spec_mehd_bytes(*self));
        }
        Ok(size)
    }
}

/// Decoding a fragment-header-extension box where one was encoded recovers
/// it.
pub proof fn lemma_mehd_round_trip(data: Seq<u8>, pos: int, m: MehdBox)
    requires
        8 <= pos,
        pos - 8 + spec_mehd_size(m) <= data.len(),
        mehd_valid(m),
        data.subrange(pos - 8, pos - 8 + spec_mehd_size(m)) == spec_mehd_bytes(m),
    ensures
        spec_read_mehd(data, pos, spec_mehd_size(m) as u64) == Ok::<MehdBox, BoxError>(m),
{
    let enc = spec_mehd_bytes(m);
    let lo = pos - 8;
    let sz = spec_mehd_size(m);
    assert forall|k: int| 0 <= k < sz implies data[lo + k] == enc[k] by {
        assert(data.subrange(pos - 8, pos - 8 + sz)[k] == data[lo + k]);
    }
    assert(data[pos] == enc[8]) by {
        assert(data[lo + 8] == enc[8]);
    }
    assert forall|j: int| 0 <= j < 3 implies data[pos + 1 + j] == u24_be_bytes(m.flags)[j] by {
        assert(data[lo + (9 + j)] == enc[9 + j]);
    }
    assert(data[pos + 1] == u24_be_bytes(m.flags)[0]) by {
        assert(data[pos + 1 + 0] == u24_be_bytes(m.flags)[0]);
    }
    lemma_be_u24_round_trip(data, pos + 1, m.flags);
    let w = spec_versioned_width(m.version);
    assert forall|j: int|
        0 <= j < w implies data[pos + 4 + j] == versioned_be_bytes(
        m.fragment_duration,
        m.version,
    )[j] by {
        assert(data[lo + (12 + j)] == enc[12 + j]);
    }
    lemma_versioned_round_trip(data, pos + 4, m.fragment_duration, m.version);
}

} // verus!
