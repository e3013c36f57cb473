//! The recursion pattern of a function.

use vstd::prelude::*;
use crate::graph::NodeId;

verus! {

/// A recursion pattern.
#[derive(Debug, Clone)]
pub struct RecursionPattern {
    /// Type of recursion.
    pub kind: RecursionKind,
    /// Base case nodes.
    pub base_cases: Vec<NodeId>,
    /// Recursive call sites.
    pub recursive_calls: Vec<NodeId>,
    /// Reduction of the problem size per call.
    pub reduction: ReductionPattern,
    /// Whether tail call optimization is possible.
    pub tail_optimizable: bool,
}

impl RecursionPattern {
    /// A pattern of `kind` with no base cases or calls, unknown reduction, not tail-optimizable.
    pub fn new(kind: RecursionKind) -> (r: RecursionPattern)
        ensures
            r.kind == kind,
            r.base_cases@.len() == 0,
            r.recursive_calls@.len() == 0,
            r.reduction == ReductionPattern::Unknown,
            !r.tail_optimizable,
    {
        RecursionPattern {
            kind,
            base_cases: Vec::new(),
            recursive_calls: Vec::new(),
            reduction: ReductionPattern::Unknown,
            tail_optimizable: false,
        }
    }

    /// Adds a base case.
    pub fn with_base_case(self, node: NodeId) -> (r: RecursionPattern)
        ensures
            r.base_cases@ == self.base_cases@.push(node),
            r.kind == self.kind,
            r.recursive_calls@ == self.recursive_calls@,
            r.reduction == self.reduction,
            r.tail_optimizable == self.tail_optimizable,
    {
        let mut s = self;
        s.base_cases.push(node);
        s
    }

    /// Adds a recursive call.
    pub fn with_recursive_call(self, node: NodeId) -> (r: RecursionPattern)
        ensures
            r.recursive_calls@ == self.recursive_calls@.push(node),
            r.kind == self.kind,
            r.base_cases@ == self.base_cases@,
            r.reduction == self.reduction,
            r.tail_optimizable == self.tail_optimizable,
    {
        let mut s = self;
        s.recursive_calls.push(node);
        s
    }

    /// Sets the reduction pattern.
    pub fn with_reduction(self, reduction: ReductionPattern) -> (r: RecursionPattern)
        ensures
            r == (RecursionPattern { reduction, ..self }),
    {
        RecursionPattern { reduction, ..self }
    }

    /// Sets tail optimizability.
    pub fn with_tail_optimizable(self, optimizable: bool) -> (r: RecursionPattern)
        ensures
            r == (RecursionPattern { tail_optimizable: optimizable, ..self }),
    {
        RecursionPattern { tail_optimizable: optimizable, ..self }
    }
}

impl Default for RecursionPattern {
    /// A direct-recursion pattern.
    fn default() -> (r: RecursionPattern)
        ensures
            r.kind == RecursionKind::Direct,
            r.base_cases@.len() == 0,
            r.recursive_calls@.len() == 0,
            r.reduction == ReductionPattern::Unknown,
            !r.tail_optimizable,
    {
        RecursionPattern::new(RecursionKind::Direct)
    }
}

/// Kind of recursion.
#[derive(Debug, Clone, Copy, PartialEq, Eq, Structural)]
pub enum RecursionKind {
    /// Direct recursion (function calls itself).
    Direct,
    /// Indirect/mutual recursion (A calls B which calls A).
    Indirect,
    /// Tail recursion (recursive call is last operation).
    Tail,
    /// Binary recursion (two recursive calls, like in mergesort).
    Binary,
    /// Multiple recursion (more than two calls).
    Multiple,
}

/// How the problem size is reduced in each recursive call.
#[derive(Debug, Clone, Copy)]
pub enum ReductionPattern {
    /// Constant reduction (n - k).
    Constant(usize),
    /// Linear reduction (n - 1).
    Linear,
    /// Division (n / k).
    Division(usize),
    /// Logarithmic reduction.
    Logarithmic,
    /// Unknown reduction pattern.
    Unknown,
}

} // verus!
