//! Boolean operations between two paths.
use vstd::prelude::*;

verus! {

/// Boolean operation that combines the signed distance fields of two paths.
#[derive(Debug, Clone, Copy, PartialEq, Eq, Structural)]
pub enum PathOp {
    Union,
    Intersect,
    Subtract,
    Xor,
}

} // verus!
