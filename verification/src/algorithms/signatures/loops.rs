//! The loop structure of a function.

use vstd::prelude::*;
use crate::graph::NodeId;

verus! {

/// The loop structure of a function.
#[derive(Debug, Clone)]
pub struct LoopStructure {
    /// Maximum loop nesting depth.
    pub max_depth: usize,
    /// Number of loops.
    pub loop_count: usize,
    /// The loops.
    pub loop_types: Vec<LoopType>,
    /// Whether the loops are independent (parallelizable).
    pub loops_independent: bool,
}

impl Default for LoopStructure {
    /// An empty structure, as [`LoopStructure::new`] makes it.
    fn default() -> (r: LoopStructure)
        ensures
            r.max_depth == 0,
            r.loop_count == 0,
            r.loop_types@.len() == 0,
            !r.loops_independent,
    {
        LoopStructure::new()
    }
}

impl LoopStructure {
    /// An empty structure.
    pub fn new() -> (r: LoopStructure)
        ensures
            r.max_depth == 0,
            r.loop_count == 0,
            r.loop_types@.len() == 0,
            !r.loops_independent,
    {
        LoopStructure { max_depth: 0, loop_count: 0, loop_types: Vec::new(), loops_independent: false }
    }

    /// Sets the maximum depth.
    pub fn with_max_depth(self, depth: usize) -> (r: LoopStructure)
        ensures
            r == (LoopStructure { max_depth: depth, ..self }),
    {
        LoopStructure { max_depth: depth, ..self }
    }

    /// Adds a loop, counting it.
    pub fn with_loop(self, loop_type: LoopType) -> (r: LoopStructure)
        requires
            self.loop_count < usize::MAX,
        ensures
            r.loop_count == self.loop_count + 1,
            r.loop_types@ == self.loop_types@.push(loop_type),
            r.max_depth == self.max_depth,
            r.loops_independent == self.loops_independent,
            self.loop_count == self.loop_types@.len() ==> r.loop_count == r.loop_types@.len(),
    {
        let mut s = self;
        s.loop_count = s.loop_count + 1;
        s.loop_types.push(loop_type);
        s
    }

    /// Sets whether the loops are independent.
    pub fn with_independence(self, independent: bool) -> (r: LoopStructure)
        ensures
            r == (LoopStructure { loops_independent: independent, ..self }),
    {
        LoopStructure { loops_independent: independent, ..self }
    }
}

/// One loop construct.
#[derive(Debug, Clone)]
pub struct LoopType {
    /// Loop header node.
    pub header: NodeId,
    /// Loop kind.
    pub kind: LoopKind,
    /// Nesting depth (0 = outermost).
    pub depth: usize,
    /// Bounds information.
    pub bounds: LoopBounds,
    /// Whether the loop has early exits.
    pub has_early_exit: bool,
}

/// Kind of loop.
#[derive(Debug, Clone, Copy, PartialEq, Eq, Structural)]
pub enum LoopKind {
    /// For loop with index variable.
    CountedFor,
    /// For-each / iterator loop.
    ForEach,
    /// While loop.
    While,
    /// Do-while loop.
    DoWhile,
    /// Infinite loop (with break).
    Infinite,
}

/// Loop bounds information.
#[derive(Debug, Clone, Copy)]
pub enum LoopBounds {
    /// Constant bounds (known at compile time).
    Constant(usize),
    /// Linear in input size (n).
    LinearN,
    /// Logarithmic in input size (log n).
    LogarithmicN,
    /// Depends on multiple variables.
    Multiple,
    /// Unknown bounds.
    Unknown,
}

impl Default for LoopBounds {
    /// Unknown bounds.
    fn default() -> (r: LoopBounds)
        ensures
            r is Unknown,
    {
        LoopBounds::Unknown
    }
}

} // verus!
