//! What an optimization run reports.

use vstd::prelude::*;

use crate::evaluation::{Evaluation, PointEval};
use crate::point::Point;

verus! {

/// The message that belongs to an exit code.
///
/// * `0`: successful execution
/// * `1`: general optimization error
/// * `2`: non-convergence within defined bounds
/// * `3`: optimization timeout
/// * `4`: optimization bounds are too large
pub open spec fn message_of(exit_code: u32) -> &'static str {
    if exit_code == 0 {
        "optimization successful"
    } else if exit_code == 1 {
        "general optimization error"
    } else if exit_code == 2 {
        "non-convergence within defined bounds"
    } else if exit_code == 3 {
        "optimization timeout"
    } else if exit_code == 4 {
        "optimization bounds are too large"
    } else {
        ""
    }
}

/// What a result holds.
pub struct Report {
    pub exit_code: u32,
    pub message: &'static str,
    pub loops: u32,
    pub fn_evals: u32,
    pub best: Option<Evaluation>,
}

/// The outcome of an optimization run.
#[derive(Debug)]
pub struct HypercubeOptimizerResult {
    exit_code: u32,
    message: &'static str,
    loops: u32,
    fn_evals: u32,
    best_x: Option<Point>,
    best_f: Option<i64>,
}

impl View for HypercubeOptimizerResult {
    type V = Report;

    closed spec fn view(&self) -> Report {
        Report {
            exit_code: self.exit_code,
            message: self.message,
            loops: self.loops,
            fn_evals: self.fn_evals,
            best: match (self.best_x, self.best_f) {
                (Some(x), Some(f)) => Some(Evaluation { point: x@, value: f }),
                _ => None,
            },
        }
    }
}

impl HypercubeOptimizerResult {
    /// The best point and the best value are both there or both missing.
    pub closed spec fn paired(&self) -> bool {
        self.best_x is Some <==> self.best_f is Some
    }

    /// The best point and the best value are both there or both missing, and
    /// the message is that of the exit code.
    pub open spec fn wf(&self) -> bool {
        &&& self.paired()
        &&& self@.message == message_of(self@.exit_code)
    }

    /// The result with the given exit code and counts, and the point and
    /// value of `best_value`.
    pub fn new(exit_code: u32, loops: u32, fn_evals: u32, best_value: Option<&PointEval>) -> (r:
        Self)
        ensures
            r.wf(),
            r@.exit_code == exit_code,
            r@.message == message_of(exit_code),
            r@.loops == loops,
            r@.fn_evals == fn_evals,
            best_value is None ==> r@.best is None,
            best_value is Some ==> r@.best == Some(best_value->0@),
    {
        let message = Self::map_to_message(exit_code);
        match best_value {
            Some(v) => HypercubeOptimizerResult {
                exit_code,
                message,
                loops,
                fn_evals,
                best_x: Some(v.get_point()),
                best_f: Some(v.get_eval()),
            },
            None => HypercubeOptimizerResult {
                exit_code,
                message,
                loops,
                fn_evals,
                best_x: None,
                best_f: None,
            },
        }
    }

    /// The message that belongs to `exit_code`; the empty string for a code
    /// without a meaning.
    pub fn map_to_message(exit_code: u32) -> (r: &'static str)
        ensures
            r == message_of(exit_code),
    {
        match exit_code {
            0 => "optimization successful",
            1 => "general optimization error",
            2 => "non-convergence within defined bounds",
            3 => "optimization timeout",
            4 => "optimization bounds are too large",
            _ => "",
        }
    }

    /// The exit code.
    pub fn exit_code(&self) -> (r: u32)
        ensures
            r == self@.exit_code,
    {
        self.exit_code
    }

    /// The message of the exit code.
    pub fn message(&self) -> (r: &'static str)
        requires
            self.wf(),
        ensures
            r == self@.message,
            r == message_of(self@.exit_code),
    {
        self.message
    }

    /// The number of iterations that were run.
    pub fn loops(&self) -> (r: u32)
        ensures
            r == self@.loops,
    {
        self.loops
    }

    /// The number of evaluations of the objective function.
    pub fn fn_evals(&self) -> (r: u32)
        ensures
            r == self@.fn_evals,
    {
        self.fn_evals
    }

    /// The best point that was found.
    pub fn best_x(&self) -> (r: Option<Point>)
        requires
            self.wf(),
        ensures
            r is Some <==> self@.best is Some,
            r is Some ==> r->0@ == self@.best->0.point,
    {
        match &self.best_x {
            Some(x) => Some(x.clone()),
            None => None,
        }
    }

    /// The value of the best point.
    pub fn best_f(&self) -> (r: Option<i64>)
        requires
            self.wf(),
        ensures
            r is Some <==> self@.best is Some,
            r is Some ==> r->0 == self@.best->0.value,
    {
        self.best_f
    }
}

} // verus!
