//! Errors that may arise when working with arrays.

use vstd::prelude::*;

verus! {

/// Errors that may arise when working with arrays.
#[derive(Debug)]
pub enum Error {
    /// An index exceeds the size of the axis
    IndexOutOfBounds {
        /// The requested index
        ix: usize,
        /// The index of the requested axis
        axis_ix: usize,
        /// The size of the axis
        axis_size: usize,
    },
    /// An offset exceeds the array size
    OffsetOutOfBounds {
        /// The requested offset
        offset: usize,
        /// The number of elements in the array
        bound: usize,
    },
    /// Trying to reshape into an incompatible shape
    ReshapeIncompatibleShape {
        /// Number of elements the array holds
        size: usize,
        /// The requested new shape
        new_shape: Vec<usize>,
    },
    /// The allocator returned no memory
    AllocationFailed,
}

} // verus!
