//! A point paired with the value an objective function gave it.

use std::cmp::Ordering;

use vstd::prelude::*;
use vstd::std_specs::cmp::{PartialEqSpecImpl, PartialOrdSpecImpl};

use crate::point::Point;

verus! {

/// What an evaluation holds: the coordinates of the point and its value.
pub struct Evaluation {
    pub point: Seq<i64>,
    pub value: i64,
}

/// How two values order.
pub open spec fn order_of(a: i64, b: i64) -> Ordering {
    if a < b {
        Ordering::Less
    } else if a > b {
        Ordering::Greater
    } else {
        Ordering::Equal
    }
}

/// A point and its image under an objective function.
///
/// Evaluations are compared by their images alone.
#[derive(Debug)]
pub struct PointEval {
    argument: Point,
    image: i64,
}

impl View for PointEval {
    type V = Evaluation;

    closed spec fn view(&self) -> Evaluation {
        Evaluation { point: self.argument@, value: self.image }
    }
}

impl Clone for PointEval {
    fn clone(&self) -> (r: Self)
        ensures
            r@ == self@,
    {
        PointEval { argument: self.argument.clone(), image: self.image }
    }
}

impl PartialEqSpecImpl for PointEval {
    open spec fn obeys_eq_spec() -> bool {
        true
    }

    open spec fn eq_spec(&self, other: &PointEval) -> bool {
        self@.value == other@.value
    }
}

impl PartialEq for PointEval {
    /// Two evaluations are equal when their images are.
    fn eq(&self, other: &PointEval) -> (r: bool) {
        self.image == other.image
    }
}

impl Eq for PointEval {

}

impl PartialOrdSpecImpl for PointEval {
    open spec fn obeys_partial_cmp_spec() -> bool {
        true
    }

    open spec fn partial_cmp_spec(&self, other: &PointEval) -> Option<Ordering> {
        Some(order_of(self@.value, other@.value))
    }
}

impl PartialOrd for PointEval {
    /// Evaluations order as their images do.
    fn partial_cmp(&self, other: &PointEval) -> (r: Option<Ordering>) {
        Some(self.cmp(other))
    }
}

impl PointEval {
    /// The evaluation of `argument` with the given `image`.
    pub fn new(argument: Point, image: i64) -> (r: Self)
        ensures
            r@.point == argument@,
            r@.value == image,
    {
        PointEval { argument, image }
    }

    /// The evaluation of `argument` under `function`.
    pub fn new_with_eval<F: Fn(&Point) -> i64>(argument: Point, function: F) -> (r: Self)
        requires
            call_requires(function, (&argument,)),
        ensures
            r@.point == argument@,
            call_ensures(function, (&argument,), r@.value),
    {
        let image = function(&argument);
        PointEval { argument, image }
    }

    /// Replaces the image by that of the point under `func`.
    pub fn eval<F: Fn(&Point) -> i64>(&mut self, func: F)
        requires
            call_requires(func, (&old(self).spec_argument(),)),
        ensures
            final(self)@.point == old(self)@.point,
            final(self).spec_argument() == old(self).spec_argument(),
            call_ensures(func, (&old(self).spec_argument(),), final(self)@.value),
    {
        let image = func(&self.argument);
        self.image = image;
    }

    /// The point that was evaluated, as the objective function sees it.
    pub closed spec fn spec_argument(&self) -> Point {
        self.argument
    }

    /// The image.
    pub fn get_eval(&self) -> (r: i64)
        ensures
            r == self@.value,
    {
        self.image
    }

    /// The point that was evaluated.
    pub fn get_point(&self) -> (r: Point)
        ensures
            r@ == self@.point,
    {
        self.argument.clone()
    }

    /// Orders two evaluations by their images.
    pub fn cmp(&self, other: &PointEval) -> (r: Ordering)
        ensures
            r == order_of(self@.value, other@.value),
    {
        if self.image < other.image {
            Ordering::Less
        } else if self.image > other.image {
            Ordering::Greater
        } else {
            Ordering::Equal
        }
    }

    /// The evaluation with the greater image; `other` where the images are
    /// equal.
    pub fn max(self, other: PointEval) -> (r: PointEval)
        ensures
            r == if other@.value >= self@.value {
                other
            } else {
                self
            },
    {
        if other.image >= self.image {
            other
        } else {
            self
        }
    }
}

} // verus!
