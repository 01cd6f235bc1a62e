//! The segment-index box: a leaf holding a versioned header and an ordered
//! list of reference records, each packing three sub-word fields into two of
//! its three 32-bit words.

use vstd::prelude::*;
use crate::bits::{
    lemma_pack_unpack_1_31, lemma_pack_unpack_1_3_28, pack_1_31, pack_1_3_28, spec_pack_1_31,
    spec_pack_1_3_28, unpack_1_31, unpack_1_3_28,
};
use crate::boxtype::BoxType;
use crate::bytes::{
    be_u16_at, be_u24_at, be_u32_at, get_u16, get_u24, get_u32, get_u8,
    lemma_be_u16_round_trip, lemma_be_u24_round_trip, lemma_be_u32_round_trip, put_u16, put_u24,
    put_u32, put_u8, u16_be_bytes, u24_be_bytes, u32_be_bytes,
};
use crate::error::BoxError;
use crate::header::{spec_header_bytes, BoxHeader, HEADER_SIZE};
use crate::versioned::{
    get_versioned, lemma_versioned_round_trip, put_versioned, spec_versioned_at,
    spec_versioned_width, versioned_be_bytes, versioned_width,
};

verus! {

/// One entry of the segment-index reference list. On the wire it is three
/// 32-bit words: a 1-bit type over a 31-bit size, a 32-bit duration, and a
/// 1-bit flag, a 3-bit type and a 28-bit offset.
#[derive(Clone, Copy, Debug, PartialEq, Eq, Structural)]
pub struct SidxReference {
    pub reference_type: u8,
    pub referenced_size: u32,
    pub subsegment_duration: u32,
    pub starts_with_sap: u8,
    pub sap_type: u8,
    pub sap_delta_time: u32,
}

#[derive(Debug, Clone, PartialEq, Eq)]
pub struct SidxBox {
    pub version: u8,
    pub flags: u32,
    pub reference_id: u32,
    pub timescale: u32,
    pub earliest_presentation_time: u64,
    pub first_offset: u64,
    pub references: Vec<SidxReference>,
}

/// Mathematical view of a segment-index box.
#[verifier::ext_equal]
pub struct SidxBoxView {
    pub version: u8,
    pub flags: u32,
    pub reference_id: u32,
    pub timescale: u32,
    pub earliest_presentation_time: u64,
    pub first_offset: u64,
    pub references: Seq<SidxReference>,
}

impl View for SidxBox {
    type V = SidxBoxView;

    open spec fn view(&self) -> SidxBoxView {
        SidxBoxView {
            version: self.version,
            flags: self.flags,
            reference_id: self.reference_id,
            timescale: self.timescale,
            earliest_presentation_time: self.earliest_presentation_time,
            first_offset: self.first_offset,
            references: self.references@,
        }
    }
}

/// Every sub-word field of a reference fits its declared bit width.
pub open spec fn ref_valid(r: SidxReference) -> bool {
    &&& r.reference_type <= 1
    &&& r.referenced_size <= 0x7fff_ffff
    &&& r.starts_with_sap <= 1
    &&& r.sap_type <= 7
    &&& r.sap_delta_time <= 0x0fff_ffff
}

/// Encoding succeeds exactly when every reference fits its bit widths and
/// the reference count fits its 2-byte field.
pub open spec fn sidx_encodable(b: SidxBoxView) -> bool {
    &&& b.references.len() <= 0xffff
    &&& forall|i: int| 0 <= i < b.references.len() ==> ref_valid(#[trigger] b.references[i])
}

/// A value whose encoding decodes back to it: beyond `sidx_encodable`, the
/// version byte must be a declared variant, the flags field is written as
/// zero, and version-0 time fields must fit 32 bits, since writing narrows
/// them without check.
pub open spec fn sidx_valid(b: SidxBoxView) -> bool {
    &&& sidx_encodable(b)
    &&& b.version <= 1
    &&& b.flags == 0
    &&& (b.version == 1 || (b.earliest_presentation_time <= u32::MAX && b.first_offset
        <= u32::MAX))
}

/// Wire size: header, four or six 32-bit header words by version, and
/// twelve bytes per reference.
pub open spec fn spec_sidx_size(b: SidxBoxView) -> int {
    8 + (4 + (if b.version == 1 {
        2int
    } else {
        1int
    }) * 2) * 4 + 12 * b.references.len()
}

/// The reference record whose twelve bytes start at `pos`.
pub open spec fn spec_ref_at(data: Seq<u8>, pos: int) -> SidxReference
    recommends
        0 <= pos,
        pos + 12 <= data.len(),
{
    let w1 = be_u32_at(data, pos);
    let w3 = be_u32_at(data, pos + 8);
    SidxReference {
        reference_type: (w1 >> 31) as u8,
        referenced_size: w1 & 0x7fff_ffff,
        subsegment_duration: be_u32_at(data, pos + 4),
        starts_with_sap: (w3 >> 31) as u8,
        sap_type: ((w3 >> 28) & 7) as u8,
        sap_delta_time: w3 & 0x0fff_ffff,
    }
}

/// The `n` consecutive reference records starting at `pos`.
pub open spec fn spec_read_refs(data: Seq<u8>, pos: int, n: nat) -> Seq<SidxReference>
    decreases n,
{
    if n == 0 {
        Seq::empty()
    } else {
        seq![spec_ref_at(data, pos)] + spec_read_refs(data, pos + 12, (n - 1) as nat)
    }
}

/// Decoding a segment-index box from `pos` (just past its header) bounded
/// by its declared `size`. The declared reference count is authoritative;
/// trailing bytes inside the declared size are tolerated.
pub open spec fn spec_read_sidx(data: Seq<u8>, pos: int, size: u64) -> Result<
    SidxBoxView,
    BoxError,
> {
    let start = pos - 8;
    if start < 0 || start + size > data.len() || size < 20 {
        Err(BoxError::Framing)
    } else {
        let version = data[pos];
        let w = spec_versioned_width(version);
        if size < 24 + 2 * w {
            Err(BoxError::Framing)
        } else {
            let count = be_u16_at(data, pos + 14 + 2 * w) as int;
            if size < 24 + 2 * w + 12 * count {
                Err(BoxError::Framing)
            } else {
                Ok(
                    SidxBoxView {
                        version,
                        flags: be_u24_at(data, pos + 1),
                        reference_id: be_u32_at(data, pos + 4),
                        timescale: be_u32_at(data, pos + 8),
                        earliest_presentation_time: spec_versioned_at(data, pos + 12, version),
                        first_offset: spec_versioned_at(data, pos + 12 + w, version),
                        references: spec_read_refs(data, pos + 16 + 2 * w, count as nat),
                    },
                )
            }
        }
    }
}

/// The twelve bytes a reference record encodes to; meaningful only when
/// `ref_valid` holds.
pub open spec fn spec_ref_bytes(r: SidxReference) -> Seq<u8>
    recommends
        ref_valid(r),
{
    u32_be_bytes(spec_pack_1_31(r.reference_type as u32, r.referenced_size)) + u32_be_bytes(
        r.subsegment_duration,
    ) + u32_be_bytes(
        spec_pack_1_3_28(r.starts_with_sap as u32, r.sap_type as u32, r.sap_delta_time),
    )
}

pub open spec fn spec_refs_bytes(refs: Seq<SidxReference>) -> Seq<u8>
    decreases refs.len(),
{
    if refs.len() == 0 {
        Seq::empty()
    } else {
        spec_ref_bytes(refs[0]) + spec_refs_bytes(refs.drop_first())
    }
}

/// The bytes a segment-index box encodes to; meaningful only when
/// `sidx_encodable` holds. The flags and reserved fields are written as
/// zero.
pub open spec fn spec_sidx_bytes(b: SidxBoxView) -> Seq<u8>
    recommends
        sidx_encodable(b),
{
    spec_header_bytes(BoxHeader { name: BoxType::SidxBox, size: spec_sidx_size(b) as u64 })
        + seq![b.version] + u24_be_bytes(0) + u32_be_bytes(b.reference_id) + u32_be_bytes(
        b.timescale,
    ) + versioned_be_bytes(b.earliest_presentation_time, b.version) + versioned_be_bytes(
        b.first_offset,
        b.version,
    ) + u16_be_bytes(0) + u16_be_bytes(b.references.len() as u16) + spec_refs_bytes(b.references)
}

pub proof fn lemma_refs_bytes_len(refs: Seq<SidxReference>)
    ensures
        spec_refs_bytes(refs).len() == 12 * refs.len(),
    decreases refs.len(),
{
    if refs.len() > 0 {
        lemma_refs_bytes_len(refs.drop_first());
    }
}

/// The encoding of a box is exactly as long as its wire size says.
pub proof fn lemma_sidx_bytes_len(b: SidxBoxView)
    requires
        b.references.len() <= 0xffff,
    ensures
        spec_sidx_bytes(b).len() == spec_sidx_size(b),
{
    lemma_refs_bytes_len(b.references);
}

pub proof fn lemma_refs_bytes_push(refs: Seq<SidxReference>, r: SidxReference)
    ensures
        spec_refs_bytes(refs.push(r)) == spec_refs_bytes(refs) + spec_ref_bytes(r),
    decreases refs.len(),
{
    if refs.len() == 0 {
        assert(refs.push(r)[0] == r);
        assert(refs.push(r).drop_first() =~= Seq::<SidxReference>::empty());
        assert(spec_refs_bytes(Seq::<SidxReference>::empty()) =~= Seq::<u8>::empty());
        assert(spec_refs_bytes(refs.push(r)) == spec_ref_bytes(r) + spec_refs_bytes(
            refs.push(r).drop_first(),
        ));
        assert(spec_refs_bytes(refs.push(r)) =~= spec_refs_bytes(refs) + spec_ref_bytes(r));
    } else {
        let a = spec_ref_bytes(refs[0]);
        let m = refs.drop_first();
        assert(refs.push(r)[0] == refs[0]);
        assert(refs.push(r).drop_first() =~= m.push(r));
        lemma_refs_bytes_push(m, r);
        assert(spec_refs_bytes(refs.push(r)) == a + spec_refs_bytes(refs.push(r).drop_first()));
        assert(spec_refs_bytes(refs.push(r).drop_first()) == spec_refs_bytes(m.push(r)));
        assert(spec_refs_bytes(refs) == a + spec_refs_bytes(m));
        assert(spec_refs_bytes(refs.push(r)) =~= spec_refs_bytes(refs) + spec_ref_bytes(r));
    }
}

pub proof fn lemma_read_refs_snoc(data: Seq<u8>, pos: int, n: nat)
    ensures
        spec_read_refs(data, pos, n + 1) == spec_read_refs(data, pos, n).push(
            spec_ref_at(data, pos + 12 * n),
        ),
    decreases n,
{
    if n == 0 {
        assert(spec_read_refs(data, pos + 12, 0) =~= Seq::<SidxReference>::empty());
        assert(spec_read_refs(data, pos, 0) =~= Seq::<SidxReference>::empty());
        assert(spec_read_refs(data, pos, 1) == seq![spec_ref_at(data, pos)] + spec_read_refs(
            data,
            pos + 12,
            0,
        ));
        assert(spec_read_refs(data, pos, 1) =~= spec_read_refs(data, pos, 0).push(
            spec_ref_at(data, pos),
        ));
    } else {
        lemma_read_refs_snoc(data, pos + 12, (n - 1) as nat);
        assert(spec_read_refs(data, pos, n + 1) == seq![spec_ref_at(data, pos)] + spec_read_refs(
            data,
            pos + 12,
            n,
        ));
        assert(spec_read_refs(data, pos, n) == seq![spec_ref_at(data, pos)] + spec_read_refs(
            data,
            pos + 12,
            (n - 1) as nat,
        ));
        assert(spec_read_refs(data, pos, n + 1) =~= spec_read_refs(data, pos, n).push(
            spec_ref_at(data, pos + 12 * n),
        ));
    }
}

/// Decoding `refs.len()` records where `refs` was encoded recovers `refs`.
pub proof fn lemma_refs_round_trip(data: Seq<u8>, pos: int, refs: Seq<SidxReference>)
    requires
        0 <= pos,
        pos + 12 * refs.len() <= data.len(),
        forall|i: int| 0 <= i < refs.len() ==> ref_valid(#[trigger] refs[i]),
        data.subrange(pos, pos + 12 * refs.len()) == spec_refs_bytes(refs),
    ensures
        spec_read_refs(data, pos, refs.len()) == refs,
    decreases refs.len(),
{
    lemma_refs_bytes_len(refs);
    if refs.len() == 0 {
        assert(spec_read_refs(data, pos, 0) =~= refs);
    } else {
        let r0 = refs[0];
        let enc = spec_refs_bytes(refs);
        let w1 = spec_pack_1_31(r0.reference_type as u32, r0.referenced_size);
        let w3 = spec_pack_1_3_28(r0.starts_with_sap as u32, r0.sap_type as u32, r0.sap_delta_time);
        assert(ref_valid(r0));
        assert forall|k: int| 0 <= k < 12 implies data[pos + k] == spec_ref_bytes(r0)[k] by {
            assert(data.subrange(pos, pos + 12 * refs.len())[k] == data[pos + k]);
            assert(enc[k] == spec_ref_bytes(r0)[k]);
        }
        assert forall|j: int|
            0 <= j < 4 implies data[pos + j] == u32_be_bytes(w1)[j] && data[pos + 4 + j]
            == u32_be_bytes(r0.subsegment_duration)[j] && data[pos + 8 + j] == u32_be_bytes(
            w3,
        )[j] by {
            assert(data[pos + j] == spec_ref_bytes(r0)[j]);
            assert(data[pos + (4 + j)] == spec_ref_bytes(r0)[4 + j]);
            assert(data[pos + (8 + j)] == spec_ref_bytes(r0)[8 + j]);
        }
        assert(data[pos] == u32_be_bytes(w1)[0]) by {
            assert(data[pos + 0] == u32_be_bytes(w1)[0]);
        }
        assert(data[pos + 4] == u32_be_bytes(r0.subsegment_duration)[0]) by {
            assert(data[pos + 4 + 0] == u32_be_bytes(r0.subsegment_duration)[0]);
        }
        assert(data[pos + 8] == u32_be_bytes(w3)[0]) by {
            assert(data[pos + 8 + 0] == u32_be_bytes(w3)[0]);
        }
        lemma_be_u32_round_trip(data, pos, w1);
        lemma_be_u32_round_trip(data, pos + 4, r0.subsegment_duration);
        lemma_be_u32_round_trip(data, pos + 8, w3);
        lemma_pack_unpack_1_31(r0.reference_type as u32, r0.referenced_size);
        lemma_pack_unpack_1_3_28(r0.starts_with_sap as u32, r0.sap_type as u32, r0.sap_delta_time);
        assert(spec_ref_at(data, pos) == r0);
        let rest = refs.drop_first();
        lemma_refs_bytes_len(rest);
        assert(data.subrange(pos + 12, pos + 12 + 12 * rest.len()) =~= spec_refs_bytes(rest)) by {
            assert forall|k: int| 0 <= k < 12 * rest.len() implies data[pos + 12 + k]
                == spec_refs_bytes(rest)[k] by {
                assert(data.subrange(pos, pos + 12 * refs.len())[12 + k] == data[pos + 12 + k]);
                assert(enc[12 + k] == spec_refs_bytes(rest)[k]);
            }
        }
        lemma_refs_round_trip(data, pos + 12, rest);
        assert(spec_read_refs(data, pos, refs.len()) =~= seq![r0] + spec_read_refs(
            data,
            pos + 12,
            rest.len(),
        ));
        assert(seq![r0] + rest =~= refs);
    }
}

impl SidxBox {
    pub fn get_type(&self) -> (r: BoxType)
        ensures
            r == BoxType::SidxBox,
    {
        BoxType::SidxBox
    }

    pub fn get_size(&self) -> (r: u64)
        requires
            spec_sidx_size(self@) <= u64::MAX,
        ensures
            r == spec_sidx_size(self@),
    {
        HEADER_SIZE + (4 + (if self.version == 1 {
            2
        } else {
            1
        }) * 2) * 4 + 12 * (self.references.len() as u64)
    }

    /// Decodes the box whose payload starts at `pos`, just past its header;
    /// `size` is the declared size counted from the header.
    pub fn read_box(data: &Vec<u8>, pos: usize, size: u64) -> (r: Result<SidxBox, BoxError>)
        requires
            pos >= 8,
        ensures
            match r {
                Ok(b) => spec_read_sidx(data@, pos as int, size) == Ok::<SidxBoxView, BoxError>(
                    b@,
                ),
                Err(e) => spec_read_sidx(data@, pos as int, size) == Err::<SidxBoxView, BoxError>(
                    e,
                ),
            },
    {
        let n = data.len();
        let start = pos - 8;
        if start > n || size > (n - start) as u64 || size < 20 {
            return Err(BoxError::Framing);
        }
        let version = get_u8(data, pos);
        let w = versioned_width(version);
        if size < 24 + 2 * (w as u64) {
            return Err(BoxError::Framing);
        }
        let count = get_u16(data, pos + 14 + 2 * w) as usize;
        if size < 24 + 2 * (w as u64) + 12 * (count as u64) {
            return Err(BoxError::Framing);
        }
        let flags = get_u24(data, pos + 1);
        let reference_id = get_u32(data, pos + 4);
        let timescale = get_u32(data, pos + 8);
        let earliest_presentation_time = get_versioned(data, pos + 12, version);
        let first_offset = get_versioned(data, pos + 12 + w, version);
        let rpos = pos + 16 + 2 * w;
        let mut references: Vec<SidxReference> = Vec::new();
        let mut i: usize = 0;
        while i < count
            invariant
                i <= count,
                count <= 0xffff,
                rpos + 12 * count <= data@.len(),
                data@.len() <= usize::MAX,
                references@ == spec_read_refs(data@, rpos as int, i as nat),
            decreases count - i,
        {
            let p = rpos + 12 * i;
            let w1 = get_u32(data, p);
            let (rt, rsize) = unpack_1_31(w1);
            let subsegment_duration = get_u32(data, p + 4);
            let w3 = get_u32(data, p + 8);
            let (sap_flag, sap_kind, sap_delta_time) = unpack_1_3_28(w3);
            proof {
                assert(w1 >> 31 < 256 && w3 >> 31 < 256 && (w3 >> 28) & 7 < 256) by (bit_vector);
            }
            references.push(
                SidxReference {
                    reference_type: rt as u8,
                    referenced_size: rsize,
                    subsegment_duration,
                    starts_with_sap: sap_flag as u8,
                    sap_type: sap_kind as u8,
                    sap_delta_time,
                },
            );
            proof {
                lemma_read_refs_snoc(data@, rpos as int, i as nat);
                assert(references@ =~= spec_read_refs(data@, rpos as int, (i + 1) as nat));
            }
            i = i + 1;
        }
        let result = SidxBox {
            version,
            flags,
            reference_id,
            timescale,
            earliest_presentation_time,
            first_offset,
            references,
        };
        proof {
            let spec_r = spec_read_sidx(data@, pos as int, size);
            assert(spec_r is Ok);
            assert(result@ =~= spec_r->Ok_0);
        }
        Ok(result)
    }

    /// Appends the encoded box and returns its size; fails with
    /// `FieldOverflow` when a reference field does not fit its declared bit
    /// width or the reference count does not fit two bytes, leaving the
    /// output untouched. The flags field is written as zero, and version-0
    /// time fields are narrowed to their low 32 bits without check.
    pub fn write_box(&self, out: &mut Vec<u8>) -> (r: Result<u64, BoxError>)
        ensures
            sidx_encodable(self@) ==> r == Ok::<u64, BoxError>(spec_sidx_size(self@) as u64)
                && final(out)@ == old(out)@ + spec_sidx_bytes(self@),
            !sidx_encodable(self@) ==> r == Err::<u64, BoxError>(BoxError::FieldOverflow)
                && final(out)@ == old(out)@,
    {
        if self.references.len() > 0xffff {
            return Err(BoxError::FieldOverflow);
        }
        let mut i: usize = 0;
        while i < self.references.len()
            invariant
                i <= self.references@.len(),
                forall|k: int| 0 <= k < i ==> ref_valid(#[trigger] self.references@[k]),
            decreases self.references@.len() - i,
        {
            let rf = self.references[i];
            if rf.reference_type > 1 || rf.referenced_size > 0x7fff_ffff || rf.starts_with_sap > 1
                || rf.sap_type > 7 || rf.sap_delta_time > 0x0fff_ffff {
                return Err(BoxError::FieldOverflow);
            }
            i = i + 1;
        }
        let size = self.get_size();
        let header = BoxHeader::new(BoxType::SidxBox, size);
        match header.write(out) {
            Ok(()) => {},
            Err(e) => {
                return Err(e);
            },
        }
        put_u8(out, self.version);
        put_u24(out, 0);
        put_u32(out, self.reference_id);
        put_u32(out, self.timescale);
        put_versioned(out, self.earliest_presentation_time, self.version);
        put_versioned(out, self.first_offset, self.version);
        put_u16(out, 0);
        put_u16(out, self.references.len() as u16);
        let ghost fixed = out@;
        let mut j: usize = 0;
        while j < self.references.len()
            invariant
                j <= self.references@.len(),
                forall|k: int| 0 <= k < self.references@.len() ==> ref_valid(
                    #[trigger] self.references@[k],
                ),
                out@ == fixed + spec_refs_bytes(self.references@.take(j as int)),
            decreases self.references@.len() - j,
        {
            let rf = self.references[j];
            put_u32(out, pack_1_31(rf.reference_type as u32, rf.referenced_size));
            put_u32(out, rf.subsegment_duration);
            put_u32(
                out,
                pack_1_3_28(rf.starts_with_sap as u32, rf.sap_type as u32, rf.sap_delta_time),
            );
            proof {
                assert(self.references@.take(j + 1) =~= self.references@.take(j as int).push(rf));
                lemma_refs_bytes_push(self.references@.take(j as int), rf);
                assert(out@ =~= fixed + spec_refs_bytes(self.references@.take(j + 1)));
            }
            j = j + 1;
        }
        proof {
            assert(self.references@.take(self.references@.len() as int) =~= self.references@);
            assert(out@ =~= old(out)@ + spec_sidx_bytes(self@));
        }
        Ok(size)
    }
}

/// Round-trip identity: a validly constructed segment-index box, encoded
/// and decoded, comes back equal in every field.
pub proof fn lemma_sidx_round_trip(b: SidxBoxView)
    requires
        sidx_valid(b),
    ensures
        spec_read_sidx(spec_sidx_bytes(b), 8, spec_sidx_size(b) as u64) == Ok::<
            SidxBoxView,
            BoxError,
        >(b),
{
    let data = spec_sidx_bytes(b);
    lemma_sidx_bytes_len(b);
    lemma_refs_bytes_len(b.references);
    let size = spec_sidx_size(b);
    let w = spec_versioned_width(b.version);
    let n = b.references.len() as int;
    assert(size == 24 + 2 * w + 12 * n);
    assert(data[8] == b.version);
    assert forall|j: int| 0 <= j < 3 implies data[9 + j] == u24_be_bytes(0)[j] by {}
    assert(data[9] == u24_be_bytes(0)[0]);
    lemma_be_u24_round_trip(data, 9, 0);
    assert forall|j: int|
        0 <= j < 4 implies data[12 + j] == u32_be_bytes(b.reference_id)[j] && data[16 + j]
        == u32_be_bytes(b.timescale)[j] by {}
    assert(data[12] == u32_be_bytes(b.reference_id)[0]);
    assert(data[16] == u32_be_bytes(b.timescale)[0]);
    lemma_be_u32_round_trip(data, 12, b.reference_id);
    lemma_be_u32_round_trip(data, 16, b.timescale);
    assert forall|j: int|
        0 <= j < w implies data[20 + j] == versioned_be_bytes(
        b.earliest_presentation_time,
        b.version,
    )[j] && data[20 + w + j] == versioned_be_bytes(b.first_offset, b.version)[j] by {}
    lemma_versioned_round_trip(data, 20, b.earliest_presentation_time, b.version);
    lemma_versioned_round_trip(data, 20 + w, b.first_offset, b.version);
    assert forall|j: int|
        0 <= j < 2 implies data[20 + 2 * w + j] == u16_be_bytes(0)[j] && data[22 + 2 * w + j]
        == u16_be_bytes(n as u16)[j] by {}
    assert(data[20 + 2 * w] == u16_be_bytes(0)[0]);
    assert(data[22 + 2 * w] == u16_be_bytes(n as u16)[0]);
    lemma_be_u16_round_trip(data, 20 + 2 * w, 0);
    lemma_be_u16_round_trip(data, 22 + 2 * w, n as u16);
    assert(data.subrange(24 + 2 * w, 24 + 2 * w + 12 * n) =~= spec_refs_bytes(b.references)) by {
        assert forall|k: int| 0 <= k < 12 * n implies data[24 + 2 * w + k] == spec_refs_bytes(
            b.references,
        )[k] by {}
    }
    lemma_refs_round_trip(data, 24 + 2 * w, b.references);
    let r = spec_read_sidx(data, 8, size as u64);
    assert(r is Ok);
    assert(r->Ok_0 =~= b);
}

} // verus!
