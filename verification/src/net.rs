//! The interface types of the composition layer: the loss selector, the batch
//! size policy of a dataset, and the errors the layer reports. The layer
//! itself (networks, activations, optimisers) composes the array and dual
//! cores and lives outside the verified library.

use vstd::prelude::*;

verus! {

/// A continuous, derivable function to describe how close one value is to
/// another.
#[derive(Debug, Clone, Copy)]
pub enum Loss {
    /// Mean squared error loss
    MSE,
}

/// Number of training examples to run before optimizing the net once. If the
/// number of examples does not fit evenly, the remainder of the division of
/// the example count by the batch size is disregarded.
#[derive(Debug, Clone, Copy)]
pub enum BatchSize {
    /// Batch gradient descent
    All,
    /// Stochastic gradient descent, equivalent to a batch size of one
    One,
    /// Mini batch gradient descent
    Number(usize),
}

/// Errors the composition layer reports.
#[derive(Debug)]
pub enum Error {
    /// Two shapes that were expected to agree did not
    MismatchedDimensions {
        /// The shape the operation expected
        expected: Vec<usize>,
        /// The shape it found
        found: Vec<usize>,
    },
    /// Expected some data but there is none
    NoData,
}

} // verus!
