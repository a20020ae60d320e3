//! Errors reported by channel views, frame flattening and filters.
use vstd::prelude::*;
use zune_core::bit_depth::BitType;

verus! {

/// What went wrong in an image operation.
#[derive(Debug, Clone)]
pub enum ImageErrors {
    /// A typed view was asked of a channel of another kind: (stored kind, requested kind).
    TypeMismatch(BitType, BitType),
    /// A flattening step met a channel of the wrong kind: (stored kind, expected kind).
    WrongElementKind(BitType, BitType),
    /// A filter was run on an element kind it does not support: (filter name, kind).
    OperationNotImplemented(&'static str, BitType),
    /// The colorspace has a component count that interleaving cannot handle.
    UnsupportedComponentCount(usize),
}

} // verus!
