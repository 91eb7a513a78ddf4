//! Objective functions on fixed-point vectors.

use vstd::prelude::*;

use crate::point::{seq_sum, Point};
use crate::scalar::clip;

verus! {

/// The saturating sum of the coordinates of `input_point`.
pub fn summation(input_point: &Point) -> (r: i64)
    requires
        input_point.wf(),
    ensures
        r == clip(seq_sum(input_point@)),
{
    input_point.sum()
}

} // verus!
