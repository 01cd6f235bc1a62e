//! The fragment-extension box: a container decoded by size-bounded
//! recursive descent. Its byte budget is its declared size; each child
//! header is read in turn, recognized children are decoded, unrecognized
//! ones are skipped whole, and a child claiming more bytes than remain in
//! the parent is a structural error.

use vstd::prelude::*;
use crate::boxtype::BoxType;
use crate::error::BoxError;
use crate::header::{
    lemma_header_round_trip, spec_header_at, spec_header_bytes, BoxHeader, HEADER_SIZE,
};
use crate::mehd::{
    lemma_mehd_round_trip, mehd_encodable, mehd_valid, spec_mehd_bytes, spec_mehd_size,
    spec_read_mehd, MehdBox,
};
use crate::trex::{
    lemma_trex_round_trip, spec_read_trex, spec_trex_bytes, trex_encodable, TrexBox, TREX_SIZE,
};

verus! {

#[derive(Debug, Clone, PartialEq, Eq)]
pub struct MvexBox {
    pub mehd: Option<MehdBox>,
    pub trex: Vec<TrexBox>,
}

/// Mathematical view of a fragment-extension box: an optional
/// fragment-header-extension child and the ordered list of track-extends
/// children.
#[verifier::ext_equal]
pub struct MvexBoxView {
    pub mehd: Option<MehdBox>,
    pub trex: Seq<TrexBox>,
}

impl View for MvexBox {
    type V = MvexBoxView;

    open spec fn view(&self) -> MvexBoxView {
        MvexBoxView { mehd: self.mehd, trex: self.trex@ }
    }
}

/// Wire size of the optional child slot: the child's size if present,
/// nothing otherwise.
pub open spec fn spec_mehd_slot_size(m: Option<MehdBox>) -> int {
    match m {
        Some(x) => spec_mehd_size(x),
        None => 0,
    }
}

/// Sum of the wire sizes of the list children.
pub open spec fn spec_trex_list_size(ts: Seq<TrexBox>) -> int
    decreases ts.len(),
{
    if ts.len() == 0 {
        0
    } else {
        TREX_SIZE + spec_trex_list_size(ts.drop_first())
    }
}

pub open spec fn spec_mvex_size(v: MvexBoxView) -> int {
    8 + spec_mehd_slot_size(v.mehd) + (TREX_SIZE as int) * v.trex.len()
}

/// Size additivity: the container's wire size equals the header size plus
/// the optional child's wire size plus the sum of each list child's wire
/// size.
pub proof fn lemma_mvex_size_additive(v: MvexBoxView)
    ensures
        spec_mvex_size(v) == HEADER_SIZE + spec_mehd_slot_size(v.mehd) + spec_trex_list_size(
            v.trex,
        ),
{
    lemma_trex_list_size_value(v.trex);
}

pub proof fn lemma_trex_list_size_value(ts: Seq<TrexBox>)
    ensures
        spec_trex_list_size(ts) == (TREX_SIZE as int) * ts.len(),
    decreases ts.len(),
{
    if ts.len() > 0 {
        lemma_trex_list_size_value(ts.drop_first());
    }
}

/// Decoding the children of a fragment-extension box between `pos` and the
/// parent's declared end. A recognized child is decoded (a later
/// fragment-header-extension child overwrites an earlier one); an
/// unrecognized child is skipped whole; a child whose declared size exceeds
/// the remaining budget is a structural error.
pub open spec fn spec_read_children(data: Seq<u8>, pos: int, end: int) -> Result<
    (Option<MehdBox>, Seq<TrexBox>),
    BoxError,
>
    recommends
        end <= data.len(),
    decreases end - pos,
{
    if pos >= end {
        Ok((None, Seq::empty()))
    } else if end - pos < 8 {
        Err(BoxError::Framing)
    } else {
        let h = spec_header_at(data, pos);
        if h.size as int > end - pos {
            Err(BoxError::BudgetExceeded)
        } else if h.size < 8 {
            Err(BoxError::Framing)
        } else {
            let cend = pos + h.size as int;
            if h.name == BoxType::MehdBox {
                match spec_read_mehd(data, pos + 8, h.size) {
                    Err(e) => Err(e),
                    Ok(m) => match spec_read_children(data, cend, end) {
                        Err(e) => Err(e),
                        Ok(p) => Ok(
                            (
                                if p.0 is Some {
                                    p.0
                                } else {
                                    Some(m)
                                },
                                p.1,
                            ),
                        ),
                    },
                }
            } else if h.name == BoxType::TrexBox {
                match spec_read_trex(data, pos + 8, h.size) {
                    Err(e) => Err(e),
                    Ok(t) => match spec_read_children(data, cend, end) {
                        Err(e) => Err(e),
                        Ok(p) => Ok((p.0, seq![t] + p.1)),
                    },
                }
            } else {
                spec_read_children(data, cend, end)
            }
        }
    }
}

/// Decoding a fragment-extension box from `pos` (just past its header)
/// bounded by its declared `size`. A container with no track-extends child
/// is rejected.
pub open spec fn spec_read_mvex(data: Seq<u8>, pos: int, size: u64) -> Result<
    MvexBoxView,
    BoxError,
> {
    let start = pos - 8;
    if start < 0 || start + size > data.len() || size < 8 {
        Err(BoxError::Framing)
    } else {
        match spec_read_children(data, pos, start + size) {
            Err(e) => Err(e),
            Ok(p) => if p.1.len() == 0 {
                Err(BoxError::MissingRequiredChild)
            } else {
                Ok(MvexBoxView { mehd: p.0, trex: p.1 })
            },
        }
    }
}

pub open spec fn spec_mehd_slot_bytes(m: Option<MehdBox>) -> Seq<u8> {
    match m {
        Some(x) => spec_mehd_bytes(x),
        None => Seq::empty(),
    }
}

pub open spec fn spec_trex_list_bytes(ts: Seq<TrexBox>) -> Seq<u8>
    decreases ts.len(),
{
    if ts.len() == 0 {
        Seq::empty()
    } else {
        spec_trex_bytes(ts[0]) + spec_trex_list_bytes(ts.drop_first())
    }
}

/// Encoding succeeds exactly when every child's flags field fits its wire
/// width and the container's size fits the 4-byte size field.
pub open spec fn mvex_encodable(v: MvexBoxView) -> bool {
    &&& (match v.mehd {
        Some(m) => mehd_encodable(m),
        None => true,
    })
    &&& (forall|i: int| 0 <= i < v.trex.len() ==> trex_encodable(#[trigger] v.trex[i]))
    &&& spec_mvex_size(v) <= u32::MAX
}

/// The bytes a fragment-extension box encodes to: its header, then the
/// optional child if present, then each list child in order.
pub open spec fn spec_mvex_bytes(v: MvexBoxView) -> Seq<u8>
    recommends
        mvex_encodable(v),
{
    spec_header_bytes(BoxHeader { name: BoxType::MvexBox, size: spec_mvex_size(v) as u64 })
        + spec_mehd_slot_bytes(v.mehd) + spec_trex_list_bytes(v.trex)
}

pub proof fn lemma_trex_list_bytes_push(ts: Seq<TrexBox>, t: TrexBox)
    ensures
        spec_trex_list_bytes(ts.push(t)) == spec_trex_list_bytes(ts) + spec_trex_bytes(t),
    decreases ts.len(),
{
    if ts.len() == 0 {
        assert(ts.push(t)[0] == t);
        assert(ts.push(t).drop_first() =~= Seq::<TrexBox>::empty());
        assert(spec_trex_list_bytes(Seq::<TrexBox>::empty()) =~= Seq::<u8>::empty());
        assert(spec_trex_list_bytes(ts.push(t)) == spec_trex_bytes(t) + spec_trex_list_bytes(
            ts.push(t).drop_first(),
        ));
        assert(spec_trex_list_bytes(ts.push(t)) =~= spec_trex_list_bytes(ts) + spec_trex_bytes(
            t,
        ));
    } else {
        let a = spec_trex_bytes(ts[0]);
        let m = ts.drop_first();
        assert(ts.push(t)[0] == ts[0]);
        assert(ts.push(t).drop_first() =~= m.push(t));
        lemma_trex_list_bytes_push(m, t);
        assert(spec_trex_list_bytes(ts.push(t)) == a + spec_trex_list_bytes(
            ts.push(t).drop_first(),
        ));
        assert(spec_trex_list_bytes(ts.push(t).drop_first()) == spec_trex_list_bytes(m.push(t)));
        assert(spec_trex_list_bytes(ts) == a + spec_trex_list_bytes(m));
        assert(spec_trex_list_bytes(ts.push(t)) =~= spec_trex_list_bytes(ts) + spec_trex_bytes(
            t,
        ));
    }
}

/// A value whose encoding decodes back to it: beyond `mvex_encodable`, the
/// optional child must itself survive a round trip and the mandatory list
/// must not be empty, since decoding rejects a container without it.
pub open spec fn mvex_valid(v: MvexBoxView) -> bool {
    &&& mvex_encodable(v)
    &&& (match v.mehd {
        Some(m) => mehd_valid(m),
        None => true,
    })
    &&& v.trex.len() >= 1
}

pub proof fn lemma_trex_list_bytes_len(ts: Seq<TrexBox>)
    ensures
        spec_trex_list_bytes(ts).len() == (TREX_SIZE as int) * ts.len(),
    decreases ts.len(),
{
    if ts.len() > 0 {
        lemma_trex_list_bytes_len(ts.drop_first());
    }
}

/// A byte range holding exactly a sequence of encoded track-extends boxes
/// decodes, as children of a container, to exactly that sequence.
pub proof fn lemma_trex_list_decodes(data: Seq<u8>, pos: int, end: int, ts: Seq<TrexBox>)
    requires
        0 <= pos <= end <= data.len(),
        end - pos == (TREX_SIZE as int) * ts.len(),
        forall|i: int| 0 <= i < ts.len() ==> trex_encodable(#[trigger] ts[i]),
        data.subrange(pos, end) == spec_trex_list_bytes(ts),
    ensures
        spec_read_children(data, pos, end) == Ok::<(Option<MehdBox>, Seq<TrexBox>), BoxError>(
            (None, ts),
        ),
    decreases ts.len(),
{
    if ts.len() == 0 {
        assert(Seq::<TrexBox>::empty() =~= ts);
    } else {
        let t0 = ts[0];
        let enc = spec_trex_list_bytes(ts);
        lemma_trex_list_bytes_len(ts);
        assert forall|k: int| 0 <= k < 32 implies data[pos + k] == spec_trex_bytes(t0)[k] by {
            assert(data.subrange(pos, end)[k] == data[pos + k]);
            assert(enc[k] == spec_trex_bytes(t0)[k]);
        }
        let h = BoxHeader { name: BoxType::TrexBox, size: TREX_SIZE };
        assert(data.subrange(pos, pos + 8) =~= spec_header_bytes(h)) by {
            assert forall|k: int| 0 <= k < 8 implies data.subrange(pos, pos + 8)[k]
                == spec_header_bytes(h)[k] by {
                assert(data[pos + k] == spec_trex_bytes(t0)[k]);
            }
        }
        lemma_header_round_trip(data, pos, h);
        assert(data.subrange(pos - 8 + 8, pos + 8 + 24) =~= spec_trex_bytes(t0)) by {
            assert forall|k: int| 0 <= k < 32 implies data.subrange(pos, pos + 32)[k]
                == spec_trex_bytes(t0)[k] by {
                assert(data[pos + k] == spec_trex_bytes(t0)[k]);
            }
        }
        lemma_trex_round_trip(data, pos + 8, t0);
        let rest = ts.drop_first();
        lemma_trex_list_bytes_len(rest);
        assert(data.subrange(pos + 32, end) =~= spec_trex_list_bytes(rest)) by {
            assert forall|k: int| 0 <= k < end - pos - 32 implies data.subrange(pos + 32, end)[k]
                == spec_trex_list_bytes(rest)[k] by {
                assert(data.subrange(pos, end)[32 + k] == data[pos + (32 + k)]);
                assert(enc[32 + k] == spec_trex_list_bytes(rest)[k]);
            }
        }
        lemma_trex_list_decodes(data, pos + 32, end, rest);
        assert(seq![t0] + rest =~= ts);
    }
}

#[verifier::rlimit(60)]
proof fn lemma_mvex_children_decode_with_mehd(v: MvexBoxView, m: MehdBox)
    requires
        mvex_valid(v),
        v.mehd == Some(m),
    ensures
        spec_read_children(spec_mvex_bytes(v), 8, spec_mvex_size(v)) == Ok::<
            (Option<MehdBox>, Seq<TrexBox>),
            BoxError,
        >((Some(m), v.trex)),
{
    let data = spec_mvex_bytes(v);
    let size = spec_mvex_size(v);
    let slot = spec_mehd_slot_bytes(v.mehd);
    let list = spec_trex_list_bytes(v.trex);
    let msize = spec_mehd_size(m);
    lemma_trex_list_bytes_len(v.trex);
    assert(slot == spec_mehd_bytes(m));
    assert(slot.len() == msize);
    assert(data.len() == size);
    let end = size;
    let lpos = 8 + msize;
    assert(data.subrange(lpos, end) =~= list) by {
        assert forall|k: int| 0 <= k < end - lpos implies data.subrange(lpos, end)[k]
            == list[k] by {
            assert(data[lpos + k] == list[k]);
        }
    }
    assert forall|k: int| 0 <= k < msize implies data[8 + k] == spec_mehd_bytes(m)[k] by {
        assert(slot[k] == spec_mehd_bytes(m)[k]);
    }
    let h = BoxHeader { name: BoxType::MehdBox, size: msize as u64 };
    assert(data.subrange(8, 16) =~= spec_header_bytes(h)) by {
        assert forall|k: int| 0 <= k < 8 implies data.subrange(8, 16)[k] == spec_header_bytes(
            h,
        )[k] by {
            assert(data[8 + k] == spec_mehd_bytes(m)[k]);
            assert(spec_mehd_bytes(m)[k] == spec_header_bytes(h)[k]);
        }
    }
    lemma_header_round_trip(data, 8, h);
    assert(data.subrange(8, 8 + msize) =~= spec_mehd_bytes(m)) by {
        assert forall|k: int| 0 <= k < msize implies data.subrange(8, 8 + msize)[k]
            == spec_mehd_bytes(m)[k] by {
            assert(data[8 + k] == spec_mehd_bytes(m)[k]);
        }
    }
    lemma_mehd_round_trip(data, 16, m);
    lemma_trex_list_decodes(data, lpos, end, v.trex);
}

#[verifier::rlimit(60)]
proof fn lemma_mvex_children_decode_no_mehd(v: MvexBoxView)
    requires
        mvex_valid(v),
        v.mehd is None,
    ensures
        spec_read_children(spec_mvex_bytes(v), 8, spec_mvex_size(v)) == Ok::<
            (Option<MehdBox>, Seq<TrexBox>),
            BoxError,
        >((None, v.trex)),
{
    let data = spec_mvex_bytes(v);
    let size = spec_mvex_size(v);
    let list = spec_trex_list_bytes(v.trex);
    lemma_trex_list_bytes_len(v.trex);
    assert(data.len() == size);
    let end = size;
    assert(data.subrange(8, end) =~= list) by {
        assert forall|k: int| 0 <= k < end - 8 implies data.subrange(8, end)[k] == list[k] by {
            assert(data[8 + k] == list[k]);
        }
    }
    lemma_trex_list_decodes(data, 8, end, v.trex);
}

/// Round-trip identity for the container: a validly constructed
/// fragment-extension box, encoded and decoded, comes back equal in every
/// field, the optional child and each list child included.
#[verifier::rlimit(60)]
pub proof fn lemma_mvex_round_trip(v: MvexBoxView)
    requires
        mvex_valid(v),
    ensures
        spec_read_mvex(spec_mvex_bytes(v), 8, spec_mvex_size(v) as u64) == Ok::<
            MvexBoxView,
            BoxError,
        >(v),
{
    let data = spec_mvex_bytes(v);
    let size = spec_mvex_size(v);
    lemma_trex_list_bytes_len(v.trex);
    match v.mehd {
        Some(m) => {
            assert(spec_mehd_slot_bytes(v.mehd).len() == spec_mehd_size(m));
        },
        None => {
            assert(spec_mehd_slot_bytes(v.mehd).len() == 0);
        },
    }
    assert(data.len() == size);
    lemma_mvex_children_decode(v);
    let r = spec_read_mvex(data, 8, size as u64);
    assert(r is Ok);
    assert(r->Ok_0 =~= v);
}

proof fn lemma_mvex_children_decode(v: MvexBoxView)
    requires
        mvex_valid(v),
    ensures
        spec_read_children(spec_mvex_bytes(v), 8, spec_mvex_size(v)) == Ok::<
            (Option<MehdBox>, Seq<TrexBox>),
            BoxError,
        >((v.mehd, v.trex)),
{
    match v.mehd {
        Some(m) => {
            lemma_mvex_children_decode_with_mehd(v, m);
        },
        None => {
            lemma_mvex_children_decode_no_mehd(v);
        },
    }
}

/// Bounded descent: a child whose declared size exceeds the byte budget
/// remaining in its parent stops decoding with `BudgetExceeded` before the
/// child's payload is interpreted.
pub proof fn lemma_children_budget_exceeded(data: Seq<u8>, pos: int, end: int)
    requires
        0 <= pos < end,
        end - pos >= 8,
        end <= data.len(),
        spec_header_at(data, pos).size as int > end - pos,
    ensures
        spec_read_children(data, pos, end) == Err::<(Option<MehdBox>, Seq<TrexBox>), BoxError>(
            BoxError::BudgetExceeded,
        ),
{
}

/// Missing required child: when the children of a container decode with
/// zero track-extends entries, the container itself fails with
/// `MissingRequiredChild` rather than yielding an empty list.
pub proof fn lemma_mvex_missing_child(data: Seq<u8>, pos: int, size: u64)
    requires
        8 <= pos,
        pos - 8 + size <= data.len(),
        size >= 8,
        spec_read_children(data, pos, pos - 8 + size) matches Ok(p) && p.1.len() == 0,
    ensures
        spec_read_mvex(data, pos, size) == Err::<MvexBoxView, BoxError>(
            BoxError::MissingRequiredChild,
        ),
{
}

/// Unknown-child tolerance: a child bearing a tag this container does not
/// recognize, with a size inside the remaining budget, is skipped whole;
/// decoding continues past it with nothing accumulated.
pub proof fn lemma_children_skip_unknown(data: Seq<u8>, pos: int, end: int)
    requires
        0 <= pos < end,
        end - pos >= 8,
        end <= data.len(),
        spec_header_at(data, pos).name != BoxType::MehdBox,
        spec_header_at(data, pos).name != BoxType::TrexBox,
        8 <= spec_header_at(data, pos).size,
        spec_header_at(data, pos).size as int <= end - pos,
    ensures
        spec_read_children(data, pos, end) == spec_read_children(
            data,
            pos + spec_header_at(data, pos).size as int,
            end,
        ),
{
}

impl MvexBox {
    pub fn get_type(&self) -> (r: BoxType)
        ensures
            r == BoxType::MvexBox,
    {
        BoxType::MvexBox
    }

    pub fn get_size(&self) -> (r: u64)
        requires
            spec_mvex_size(self@) <= u64::MAX,
        ensures
            r == spec_mvex_size(self@),
    {
        let mehd_part: u64 = match &self.mehd {
            Some(m) => m.get_size(),
            None => 0,
        };
        HEADER_SIZE + mehd_part + TREX_SIZE * (self.trex.len() as u64)
    }

    /// Decodes the box whose payload starts at `pos`, just past its header;
    /// `size` is the declared size counted from the header. A decoded
    /// container always holds at least one track-extends child.
    pub fn read_box(data: &Vec<u8>, pos: usize, size: u64) -> (r: Result<MvexBox, BoxError>)
        requires
            pos >= 8,
        ensures
            match r {
                Ok(m) => spec_read_mvex(data@, pos as int, size) == Ok::<MvexBoxView, BoxError>(
                    m@,
                ) && m.trex@.len() >= 1,
                Err(e) => spec_read_mvex(data@, pos as int, size) == Err::<MvexBoxView, BoxError>(
                    e,
                ),
            },
    {
        let n = data.len();
        let start = pos - 8;
        if start > n || size > (n - start) as u64 || size < 8 {
            return Err(BoxError::Framing);
        }
        let end = start + (size as usize);
        let mut mehd: Option<MehdBox> = None;
        let mut trex: Vec<TrexBox> = Vec::new();
        let mut current = pos;
        while current < end
            invariant
                8 <= pos <= current <= end <= data@.len(),
                data@.len() <= usize::MAX,
                size >= 8,
                pos - 8 + size == end as int,
                match spec_read_children(data@, current as int, end as int) {
                    Ok(p) => spec_read_children(data@, pos as int, end as int) == Ok::<
                        (Option<MehdBox>, Seq<TrexBox>),
                        BoxError,
                    >(
                        (
                            if p.0 is Some {
                                p.0
                            } else {
                                mehd
                            },
                            trex@ + p.1,
                        ),
                    ),
                    Err(e) => spec_read_children(data@, pos as int, end as int) == Err::<
                        (Option<MehdBox>, Seq<TrexBox>),
                        BoxError,
                    >(e),
                },
            decreases end - current,
        {
            if end - current < 8 {
                return Err(BoxError::Framing);
            }
            let header = match BoxHeader::read(data, current) {
                Ok(h) => h,
                Err(e) => {
                    return Err(e);
                },
            };
            proof {
                assert(spec_header_at(data@, current as int) == header);
            }
            let s = header.size;
            if s > (end - current) as u64 {
                return Err(BoxError::BudgetExceeded);
            }
            if s < 8 {
                return Err(BoxError::Framing);
            }
            let cend = current + (s as usize);
            let ghost trex_snap = trex@;
            let ghost mehd_snap = mehd;
            match header.name {
                BoxType::MehdBox => {
                    match MehdBox::read_box(data, current + 8, s) {
                        Ok(m) => {
                            mehd = Some(m);
                        },
                        Err(e) => {
                            return Err(e);
                        },
                    }
                },
                BoxType::TrexBox => {
                    match TrexBox::read_box(data, current + 8, s) {
                        Ok(t) => {
                            trex.push(t);
                        },
                        Err(e) => {
                            return Err(e);
                        },
                    }
                },
                _ => {},
            }
            proof {
                let d = data@;
                let cur = current as int;
                let e = end as int;
                let ce = cend as int;
                match spec_read_children(d, ce, e) {
                    Ok(p) => {
                        if header.name == BoxType::TrexBox {
                            assert(trex@ =~= trex_snap.push(trex@[trex@.len() - 1]));
                            assert(trex_snap + (seq![trex@[trex@.len() - 1]] + p.1) =~= trex@
                                + p.1);
                        }
                    },
                    Err(_) => {},
                }
            }
            current = cend;
        }
        if trex.len() == 0 {
            return Err(BoxError::MissingRequiredChild);
        }
        let result = MvexBox { mehd, trex };
        proof {
            let d = data@;
            let e = end as int;
            assert(spec_read_children(d, e, e) == Ok::<(Option<MehdBox>, Seq<TrexBox>), BoxError>(
                (None, Seq::empty()),
            ));
            assert(trex@ + Seq::<TrexBox>::empty() =~= trex@);
            let spec_r = spec_read_mvex(d, pos as int, size);
            assert(spec_r is Ok);
            assert(result@ =~= spec_r->Ok_0);
        }
        Ok(result)
    }

    /// Appends the encoded box and returns its size: the header, then the
    /// optional child if present, then each list child in original order.
    /// Fails with `FieldOverflow` when a child's flags field does not fit
    /// its 3-byte width or the container's size does not fit the 4-byte
    /// size field, leaving the output untouched.
    pub fn write_box(&self, out: &mut Vec<u8>) -> (r: Result<u64, BoxError>)
        ensures
            mvex_encodable(self@) ==> r == Ok::<u64, BoxError>(spec_mvex_size(self@) as u64)
                && final(out)@ == old(out)@ + spec_mvex_bytes(self@),
            !mvex_encodable(self@) ==> r == Err::<u64, BoxError>(BoxError::FieldOverflow)
                && final(out)@ == old(out)@,
    {
        match &self.mehd {
            Some(m) => {
                if m.flags >= 0x100_0000 {
                    return Err(BoxError::FieldOverflow);
                }
            },
            None => {},
        }
        let mut i: usize = 0;
        while i < self.trex.len()
            invariant
                i <= self.trex@.len(),
                forall|k: int| 0 <= k < i ==> trex_encodable(#[trigger] self.trex@[k]),
            decreases self.trex@.len() - i,
        {
            if self.trex[i].flags >= 0x100_0000 {
                return Err(BoxError::FieldOverflow);
            }
            i = i + 1;
        }
        if self.trex.len() > 134_217_727 {
            proof {
                assert(spec_mvex_size(self@) > u32::MAX);
            }
            return Err(BoxError::FieldOverflow);
        }
        let size = self.get_size();
        if size > u32::MAX as u64 {
            return Err(BoxError::FieldOverflow);
        }
        let header = BoxHeader::new(BoxType::MvexBox, size);
        match header.write(out) {
            Ok(()) => {},
            Err(e) => {
                return Err(e);
            },
        }
        match &self.mehd {
            Some(m) => {
                match m.write_box(out) {
                    Ok(_) => {},
                    Err(e) => {
                        return Err(e);
                    },
                }
            },
            None => {},
        }
        proof {
            assert(out@ =~= old(out)@ + spec_header_bytes(header) + spec_mehd_slot_bytes(
                self@.mehd,
            ));
        }
        let ghost fixed = out@;
        let mut j: usize = 0;
        while j < self.trex.len()
            invariant
                j <= self.trex@.len(),
                forall|k: int| 0 <= k < self.trex@.len() ==> trex_encodable(
                    #[trigger] self.trex@[k],
                ),
                out@ == fixed + spec_trex_list_bytes(self.trex@.take(j as int)),
            decreases self.trex@.len() - j,
        {
            let t = self.trex[j];
            match t.write_box(out) {
                Ok(_) => {},
                Err(e) => {
                    return Err(e);
                },
            }
            proof {
                assert(self.trex@.take(j + 1) =~= self.trex@.take(j as int).push(t));
                lemma_trex_list_bytes_push(self.trex@.take(j as int), t);
                assert(out@ =~= fixed + spec_trex_list_bytes(self.trex@.take(j + 1)));
            }
            j = j + 1;
        }
        proof {
            assert(self.trex@.take(self.trex@.len() as int) =~= self.trex@);
            assert(out@ =~= old(out)@ + spec_mvex_bytes(self@));
        }
        Ok(size)
    }
}

} // verus!
