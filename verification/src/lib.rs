//! A small neural-network toolkit built on two verified cores: an
//! n-dimensional strided array container and a forward-mode automatic
//! differentiation number (dual numbers with a fixed derivative width).

use vstd::prelude::*;

pub mod allocation;
pub mod array;
pub mod array_trait;
pub mod dual;
pub mod error;
pub mod net;
pub mod scalar;

verus! {

/// Axis lengths multiplied together: the number of elements a shape addresses.
pub open spec fn prod(s: Seq<usize>) -> int
    decreases s.len(),
{
    if s.len() == 0 {
        1
    } else {
        s[0] * prod(s.skip(1))
    }
}

/// A product of axis lengths is never negative.
pub proof fn lemma_prod_nonneg(s: Seq<usize>)
    ensures
        prod(s) >= 0,
    decreases s.len(),
{
    if s.len() > 0 {
        lemma_prod_nonneg(s.skip(1));
        assert(s[0] * prod(s.skip(1)) >= 0) by (nonlinear_arith)
            requires
                s[0] >= 0,
                prod(s.skip(1)) >= 0,
        ;
    }
}

/// Peeling one axis off the front of a suffix of a shape.
pub proof fn lemma_prod_skip(s: Seq<usize>, i: int)
    requires
        0 <= i < s.len(),
    ensures
        prod(s.skip(i)) == s[i] * prod(s.skip(i + 1)),
{
    assert(s.skip(i).skip(1) =~= s.skip(i + 1));
    assert(s.skip(i)[0] == s[i]);
}

} // verus!
