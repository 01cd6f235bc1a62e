use vstd::prelude::*;

verus! {

/// Decode and encode failures of the box codec.
///
/// Every error is fatal for the box that raised it: decoding is all-or-nothing
/// per box, and a caller must abandon the enclosing tree rather than retry.
#[derive(Clone, Copy, Debug, PartialEq, Eq, Structural)]
pub enum BoxError {
    /// A truncated header or a size field inconsistent with the available
    /// bytes.
    Framing,
    /// A child box declared a size larger than the byte budget remaining in
    /// its parent.
    BudgetExceeded,
    /// A container decoded structurally but lacks a mandatory child.
    MissingRequiredChild,
    /// A field value does not fit the bit width its wire layout declares.
    FieldOverflow,
}

} // verus!
