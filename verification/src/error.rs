//! Why a dump cannot be decoded.

use vstd::prelude::*;

verus! {

/// The two ways in which the arguments of a decoder can disagree.
#[derive(Clone, Copy, Debug, PartialEq, Eq, Structural)]
pub enum DecodeError {
    /// The image cannot exist: it is too large to allocate, a side of its
    /// canvas does not fit `u32`, a tile does not fit its slot, or the crop
    /// reaches beyond the canvas.
    InvalidGeometry,
    /// The image can exist, but the buffer ends before the last sample
    /// that the geometry asks for.
    BufferTooSmall,
}

} // verus!
