//! Codec for box-structured binary containers: length-prefixed, type-tagged
//! records ("boxes") with big-endian fields, bit-packed sub-word fields,
//! version-dependent integer widths, and size-bounded recursive descent into
//! child boxes.

pub mod bits;
pub mod boxtype;
pub mod bytes;
pub mod error;
pub mod header;
pub mod mehd;
pub mod mvex;
pub mod sidx;
pub mod trex;
pub mod versioned;
