//! Box type tags: 4-byte identifiers carried in every box header.

use vstd::prelude::*;

verus! {

/// Tag for the fragment-extension container box ("mvex").
pub const FOURCC_MVEX: u32 = 0x6d76_6578;

/// Tag for the fragment-header-extension box ("mehd").
pub const FOURCC_MEHD: u32 = 0x6d65_6864;

/// Tag for the track-extends box ("trex").
pub const FOURCC_TREX: u32 = 0x7472_6578;

/// Tag for the segment-index box ("sidx").
pub const FOURCC_SIDX: u32 = 0x7369_6478;

/// The box kinds this codec recognizes; any other tag decodes to
/// `UnknownBox` and is skipped during recursive descent.
#[derive(Clone, Copy, Debug, PartialEq, Eq, Structural)]
pub enum BoxType {
    MvexBox,
    MehdBox,
    TrexBox,
    SidxBox,
    UnknownBox(u32),
}

pub open spec fn spec_type_code(t: BoxType) -> u32 {
    match t {
        BoxType::MvexBox => FOURCC_MVEX,
        BoxType::MehdBox => FOURCC_MEHD,
        BoxType::TrexBox => FOURCC_TREX,
        BoxType::SidxBox => FOURCC_SIDX,
        BoxType::UnknownBox(n) => n,
    }
}

pub open spec fn spec_type_of_code(n: u32) -> BoxType {
    if n == FOURCC_MVEX {
        BoxType::MvexBox
    } else if n == FOURCC_MEHD {
        BoxType::MehdBox
    } else if n == FOURCC_TREX {
        BoxType::TrexBox
    } else if n == FOURCC_SIDX {
        BoxType::SidxBox
    } else {
        BoxType::UnknownBox(n)
    }
}

impl BoxType {
    pub fn from_code(n: u32) -> (r: BoxType)
        ensures
            r == spec_type_of_code(n),
    {
        if n == FOURCC_MVEX {
            BoxType::MvexBox
        } else if n == FOURCC_MEHD {
            BoxType::MehdBox
        } else if n == FOURCC_TREX {
            BoxType::TrexBox
        } else if n == FOURCC_SIDX {
            BoxType::SidxBox
        } else {
            BoxType::UnknownBox(n)
        }
    }

    pub fn code(&self) -> (r: u32)
        ensures
            r == spec_type_code(*self),
    {
        match *self {
            BoxType::MvexBox => FOURCC_MVEX,
            BoxType::MehdBox => FOURCC_MEHD,
            BoxType::TrexBox => FOURCC_TREX,
            BoxType::SidxBox => FOURCC_SIDX,
            BoxType::UnknownBox(n) => n,
        }
    }
}

} // verus!
