//! Complexity estimates drawn from loop and recursion structure.
//!
//! | Structure | Time class |
//! |-----------|------------|
//! | no loops, no recursion | O(1) |
//! | loops nested `d` deep | O(n^d) |
//! | one halving self-call | O(log n) |
//! | two halving self-calls | O(n log n) |
//! | two plain self-calls | O(2^n) |
//! | tail recursion | O(n) |

use vstd::prelude::*;
use crate::algorithms::signatures::{better, rank_den, rank_num, ComplexityClass, ComplexityEstimate};
use crate::graph::{CodePropertyGraph, CpgNodeKind, LiteralKind, NodeId};
use crate::overlay::below_ids;
use crate::text::{decimal, decimal_of, lowercase_of, owned, str_contains, str_eq, text_has, to_lower};
use super::control_flow::{
    base_cases_of, children_of, function_name, loops_of, recursion_kind_of, recursive_calls_of, returns_of, ControlFlowAnalyzer,
    LoopPattern, RecursionKind, RecursionPattern,
};

verus! {

/// Estimates the time and space complexity of functions.
#[derive(Debug, Clone, Copy)]
pub struct ComplexityAnalyzer {
    control_flow: ControlFlowAnalyzer,
}

/// A class, a confidence in thousandths and a justification.
pub type EstimateView = (ComplexityClass, u32, Seq<char>);

/// `e` holds the estimate `v`.
pub open spec fn holds(e: ComplexityEstimate, v: EstimateView) -> bool {
    e.class == v.0 && e.confidence_permille == v.1 && e.justification@ == v.2
}

/// The deepest nesting among `loops`; zero for none.
pub open spec fn max_depth(loops: Seq<LoopPattern>) -> usize
    decreases loops.len(),
{
    if loops.len() == 0 {
        0
    } else {
        let m = max_depth(loops.drop_last());
        if loops.last().depth > m { loops.last().depth } else { m }
    }
}

/// Every loop of `loops` is counted.
pub open spec fn all_counted(loops: Seq<LoopPattern>) -> bool {
    forall|i: int| 0 <= i < loops.len() ==> #[trigger] loops[i].is_counted
}

/// The estimate for loops nested `d` deep, `all` telling whether all are counted.
pub open spec fn depth_estimate(d: usize, all: bool) -> EstimateView {
    if d == 0 {
        (ComplexityClass::Constant, 900, "No loops"@)
    } else if d == 1 {
        if all {
            (ComplexityClass::Linear, 800, "Single counted loop detected"@)
        } else {
            (ComplexityClass::Linear, 600, "Single loop (possibly unbounded)"@)
        }
    } else if d == 2 {
        if all {
            (ComplexityClass::Quadratic, 800, "Nested loops (depth 2) detected"@)
        } else {
            (ComplexityClass::Quadratic, 500, "Nested loops (depth 2, possibly unbounded)"@)
        }
    } else if d == 3 {
        (ComplexityClass::Cubic, 700, "Triple nested loops detected"@)
    } else {
        (ComplexityClass::Polynomial(d as u32), 600, "Nested loops (depth "@ + decimal_of(d) + ") detected"@)
    }
}

/// Deeper loop nesting never gives a better time class: the class that
/// `depth_estimate` assigns grows with the depth, whether or not the loops
/// are counted.
pub proof fn law_depth_monotone(d1: usize, d2: usize, all1: bool, all2: bool)
    requires
        d1 <= d2,
        d2 <= u32::MAX,
    ensures
        !better(depth_estimate(d2, all2).0, depth_estimate(d1, all1).0),
{
    let c1 = depth_estimate(d1, all1).0;
    let c2 = depth_estimate(d2, all2).0;
    if d2 >= 4 {
        let k = d2 as int;
        assert((d2 as u32) as int == k);
        assert(c2 == ComplexityClass::Polynomial(d2 as u32));
        assert(rank_num(c2) == 6 * k - 1 && rank_den(c2) == k);
        if d1 >= 4 {
            let j = d1 as int;
            assert((d1 as u32) as int == j);
            assert(c1 == ComplexityClass::Polynomial(d1 as u32));
            assert(rank_num(c1) == 6 * j - 1 && rank_den(c1) == j);
            assert((6 * j - 1) * k <= (6 * k - 1) * j) by (nonlinear_arith)
                requires 4 <= j <= k;
        } else {
            let r = rank_num(c1);
            assert(0 <= r <= 5 && rank_den(c1) == 1);
            assert(r * k <= 6 * k - 1) by (nonlinear_arith)
                requires 0 <= r <= 5, k >= 4;
        }
    } else {
        assert(rank_den(c1) == 1 && rank_den(c2) == 1);
        assert(0 <= rank_num(c1) <= rank_num(c2));
        assert(rank_num(c2) * rank_den(c1) == rank_num(c2));
        assert(rank_num(c1) * rank_den(c2) == rank_num(c1));
    }
}

/// The estimate from a function's loops; none without loops.
pub open spec fn loop_estimate(loops: Seq<LoopPattern>) -> Option<EstimateView> {
    if loops.len() == 0 { None } else { Some(depth_estimate(max_depth(loops), all_counted(loops))) }
}

/// The estimate from a recursion of `kind` with `calls` self-calls, with or
/// without base cases, halving its input or not.
pub open spec fn recursion_estimate(kind: RecursionKind, calls: usize, has_base: bool, halving: bool) -> EstimateView {
    if kind == RecursionKind::Tail {
        (ComplexityClass::Linear, 800, "Tail recursion detected (equivalent to iteration)"@)
    } else if halving {
        if calls == 1 {
            (ComplexityClass::Logarithmic, 800, "Binary search pattern detected (single recursive call with halving)"@)
        } else if calls == 2 {
            (ComplexityClass::Linearithmic, 700, "Merge sort/divide-and-conquer pattern detected (2 calls with halving)"@)
        } else {
            (ComplexityClass::Polynomial(calls as u32), 500, "Divide-and-conquer with "@ + decimal_of(calls) + " recursive calls"@)
        }
    } else if calls == 1 {
        if has_base {
            (ComplexityClass::Linear, 700, "Linear recursion detected"@)
        } else {
            (ComplexityClass::Linear, 400, "Recursion without clear base case"@)
        }
    } else if calls == 2 {
        (ComplexityClass::Exponential, 700, "Binary recursion (e.g., naive Fibonacci) detected"@)
    } else {
        (ComplexityClass::Exponential, 600, "Multiple recursive calls ("@ + decimal_of(calls) + ") detected"@)
    }
}

/// A node that shows the input being halved: a division or right shift by
/// the literal 2, or a variable named like a midpoint.
pub open spec fn halving_witness(g: CodePropertyGraph, v: NodeId) -> bool {
    &&& g.valid(v)
    &&& match g.at(v).kind {
        CpgNodeKind::BinaryOp { operator } => (operator@ == "/"@ || operator@ == ">>"@)
            && exists|i: int| 0 <= i < children_of(g, v).len() && #[trigger] is_two(g, children_of(g, v)[i]),
        CpgNodeKind::Identifier { name, .. } => midpoint_word(lowercase_of(name@)),
        _ => false,
    }
}

/// The integer literal 2.
pub open spec fn is_two(g: CodePropertyGraph, v: NodeId) -> bool {
    g.valid(v) && (g.at(v).kind matches CpgNodeKind::Literal { kind: LiteralKind::Integer(x) } && x == 2)
}

/// A lower-cased name of a midpoint.
pub open spec fn midpoint_word(s: Seq<char>) -> bool {
    s == "mid"@ || s == "middle"@ || s == "pivot"@ || text_has(s, "half"@)
}

/// Some node below `function` shows the input being halved.
pub open spec fn divides_input(g: CodePropertyGraph, function: NodeId) -> bool {
    exists|i: int| 0 <= i < below_ids(g, function, g.nodes_view().len() as int).len()
        && #[trigger] halving_witness(g, below_ids(g, function, g.nodes_view().len() as int)[i])
}

/// A lower-cased name of an allocating call.
pub open spec fn allocation_word(s: Seq<char>) -> bool {
    text_has(s, "vec"@) || text_has(s, "new"@) || text_has(s, "alloc"@) || text_has(s, "create"@)
        || text_has(s, "clone"@) || text_has(s, "collect"@)
}

/// A child naming an allocating call.
pub open spec fn allocating_name(g: CodePropertyGraph, v: NodeId) -> bool {
    &&& g.valid(v)
    &&& match g.at(v).kind {
        CpgNodeKind::Identifier { name, .. } => allocation_word(lowercase_of(name@)),
        CpgNodeKind::MemberAccess { member } => allocation_word(lowercase_of(member@)),
        _ => false,
    }
}

/// A node that allocates a collection: an array literal, or a call with a
/// child naming an allocating function.
pub open spec fn allocation_witness(g: CodePropertyGraph, v: NodeId) -> bool {
    &&& g.valid(v)
    &&& match g.at(v).kind {
        CpgNodeKind::Literal { kind: LiteralKind::Array } => true,
        CpgNodeKind::Call { .. } => exists|i: int| 0 <= i < children_of(g, v).len() && #[trigger] allocating_name(g, children_of(g, v)[i]),
        _ => false,
    }
}

/// Some node below `function` allocates a collection.
pub open spec fn allocates(g: CodePropertyGraph, function: NodeId) -> bool {
    exists|i: int| 0 <= i < below_ids(g, function, g.nodes_view().len() as int).len()
        && #[trigger] allocation_witness(g, below_ids(g, function, g.nodes_view().len() as int)[i])
}

/// `function` recurses: it is a function that calls itself by name, or
/// whose calls lead back to it through other functions.
pub open spec fn recurses(g: CodePropertyGraph, function: NodeId) -> bool {
    function_name(g, function) is Some && recursive_calls_of(g, function).len() > 0
}

/// The recursion kind of a recursing `function`.
pub open spec fn kind_of_recursion(g: CodePropertyGraph, function: NodeId) -> RecursionKind {
    recursion_kind_of(g, function)
}

/// The time estimate from the recursion of `function`, if it recurses.
pub open spec fn recursion_time(g: CodePropertyGraph, function: NodeId) -> Option<EstimateView> {
    if recurses(g, function) {
        let calls = recursive_calls_of(g, function);
        let bases = base_cases_of(g, returns_of(g, function), calls);
        Some(recursion_estimate(kind_of_recursion(g, function), calls.len() as usize, bases.len() > 0, divides_input(g, function)))
    } else {
        None
    }
}

/// The time estimate of `function`: the worse of the loop and the recursion
/// estimates, the loop one on a tie; constant without either.
pub open spec fn time_estimate(g: CodePropertyGraph, function: NodeId) -> EstimateView {
    match (loop_estimate(loops_of(g, function)), recursion_time(g, function)) {
        (None, None) => (ComplexityClass::Constant, 900, "No loops or recursion detected"@),
        (Some(l), None) => l,
        (None, Some(r)) => r,
        (Some(l), Some(r)) => if better(r.0, l.0) { l } else { r },
    }
}

/// A function with neither loops nor recursion is estimated to run in
/// constant time.
pub proof fn law_constant_without_loops_or_recursion(g: CodePropertyGraph, function: NodeId)
    requires
        loops_of(g, function).len() == 0,
        !recurses(g, function),
    ensures
        time_estimate(g, function).0 == ComplexityClass::Constant,
{
}

/// The name of a recursion kind.
pub open spec fn recursion_kind_name(k: RecursionKind) -> Seq<char> {
    match k {
        RecursionKind::Direct => "Direct"@,
        RecursionKind::Indirect => "Indirect"@,
        RecursionKind::Tail => "Tail"@,
    }
}

/// The space estimate of `function`: stack depth for recursion (none for
/// tail recursion), otherwise linear when it allocates collections.
pub open spec fn space_estimate(g: CodePropertyGraph, function: NodeId) -> EstimateView {
    if recurses(g, function) {
        let k = kind_of_recursion(g, function);
        (if k == RecursionKind::Tail { ComplexityClass::Constant } else { ComplexityClass::Linear }, 600,
            recursion_kind_name(k) + " recursion detected, stack depth estimated"@)
    } else if allocates(g, function) {
        (ComplexityClass::Linear, 500, "Data structure allocations detected"@)
    } else {
        (ComplexityClass::Constant, 700, "No significant allocations or recursion detected"@)
    }
}

/// Recursion other than tail recursion needs stack in proportion to its
/// depth: when `function` recurses directly or through other functions
/// without every recursive call being a tail call, its space is estimated
/// linear; tail recursion runs in constant space.
pub proof fn law_recursion_space(g: CodePropertyGraph, function: NodeId)
    requires
        recurses(g, function),
    ensures
        recursion_kind_of(g, function) != RecursionKind::Tail ==> space_estimate(g, function).0 == ComplexityClass::Linear,
        recursion_kind_of(g, function) is Indirect ==> space_estimate(g, function).0 == ComplexityClass::Linear,
        recursion_kind_of(g, function) is Direct ==> space_estimate(g, function).0 == ComplexityClass::Linear,
        recursion_kind_of(g, function) is Tail ==> space_estimate(g, function).0 == ComplexityClass::Constant,
{
}

/// Indirect recursion costs time as direct recursion does: for the same
/// number of recursive calls, base cases and halving, the two get the same
/// estimate, and tail recursion is linear.
pub proof fn law_indirect_time_as_direct(calls: usize, has_base: bool, divides: bool)
    ensures
        recursion_estimate(RecursionKind::Indirect, calls, has_base, divides)
            == recursion_estimate(RecursionKind::Direct, calls, has_base, divides),
        recursion_estimate(RecursionKind::Tail, calls, has_base, divides).0 == ComplexityClass::Linear,
{
}

/// An estimate.
fn estimate(class: ComplexityClass, confidence_permille: u32, justification: &str) -> (r: ComplexityEstimate)
    ensures
        holds(r, (class, confidence_permille, justification@)),
{
    ComplexityEstimate { class, confidence_permille, justification: owned(justification) }
}

impl Default for ComplexityAnalyzer {
    fn default() -> (r: ComplexityAnalyzer)
        ensures
            r.fresh(),
    {
        ComplexityAnalyzer::new()
    }
}

impl ComplexityAnalyzer {
    /// The analyzer holds a fresh control-flow analyzer.
    pub closed spec fn fresh(self) -> bool {
        self.control_flow == (ControlFlowAnalyzer {})
    }

    /// An analyzer.
    pub fn new() -> (r: ComplexityAnalyzer)
        ensures
            r.fresh(),
    {
        ComplexityAnalyzer { control_flow: ControlFlowAnalyzer::new() }
    }

    /// The time complexity of `function` ([`time_estimate`]): the loop
    /// nesting depth and the recursion shape, the worse of the two.
    pub fn estimate_time_complexity(&self, cpg: &CodePropertyGraph, function: NodeId) -> (r: ComplexityEstimate)
        requires
            cpg.wf(),
        ensures
            holds(r, time_estimate(*cpg, function)),
    {
        let loops = self.control_flow.detect_loops(cpg, function);
        let recursion = self.control_flow.detect_recursion(cpg, function);
        let loop_complexity = self.analyze_loop_complexity(&loops);
        let recursion_complexity = match &recursion {
            Some(r) => Some(self.analyze_recursion_complexity(cpg, function, r)),
            None => None,
        };
        proof {
            if recursion is Some {
                assert(recurses(*cpg, function));
            } else {
                assert(!recurses(*cpg, function));
            }
        }
        match (loop_complexity, recursion_complexity) {
            (None, None) => estimate(ComplexityClass::Constant, 900, "No loops or recursion detected"),
            (Some(loop_est), None) => loop_est,
            (None, Some(rec_est)) => rec_est,
            (Some(loop_est), Some(rec_est)) => {
                if rec_est.class.is_better_than(&loop_est.class) {
                    loop_est
                } else {
                    rec_est
                }
            },
        }
    }

    /// The space complexity of `function` ([`space_estimate`]).
    pub fn estimate_space_complexity(&self, cpg: &CodePropertyGraph, function: NodeId) -> (r: ComplexityEstimate)
        requires
            cpg.wf(),
        ensures
            holds(r, space_estimate(*cpg, function)),
    {
        let recursion = self.control_flow.detect_recursion(cpg, function);
        if let Some(rec) = recursion {
            let space_class = match rec.kind {
                RecursionKind::Tail => ComplexityClass::Constant,
                RecursionKind::Direct => ComplexityClass::Linear,
                RecursionKind::Indirect => ComplexityClass::Linear,
            };
            let mut text = match rec.kind {
                RecursionKind::Direct => owned("Direct"),
                RecursionKind::Indirect => owned("Indirect"),
                RecursionKind::Tail => owned("Tail"),
            };
            text.append(" recursion detected, stack depth estimated");
            return ComplexityEstimate { class: space_class, confidence_permille: 600, justification: text };
        }
        if self.detect_allocations(cpg, function) {
            estimate(ComplexityClass::Linear, 500, "Data structure allocations detected")
        } else {
            estimate(ComplexityClass::Constant, 700, "No significant allocations or recursion detected")
        }
    }

    /// The estimate from `loops` ([`loop_estimate`]).
    fn analyze_loop_complexity(&self, loops: &Vec<LoopPattern>) -> (r: Option<ComplexityEstimate>)
        ensures
            r is None <==> loop_estimate(loops@) is None,
            r matches Some(e) ==> holds(e, loop_estimate(loops@)->0),
    {
        if loops.len() == 0 {
            return None;
        }
        let mut max_d: usize = 0;
        let mut all = true;
        let mut i: usize = 0;
        while i < loops.len()
            invariant
                i <= loops@.len(),
                max_d == max_depth(loops@.take(i as int)),
                all == forall|t: int| 0 <= t < i ==> #[trigger] loops@[t].is_counted,
            decreases loops@.len() - i,
        {
            proof {
                assert(loops@.take(i as int + 1).drop_last() =~= loops@.take(i as int));
            }
            if loops[i].depth > max_d {
                max_d = loops[i].depth;
            }
            if !loops[i].is_counted {
                all = false;
            }
            i = i + 1;
        }
        assert(loops@.take(loops@.len() as int) =~= loops@);
        let e = if max_d == 0 {
            estimate(ComplexityClass::Constant, 900, "No loops")
        } else if max_d == 1 {
            if all {
                estimate(ComplexityClass::Linear, 800, "Single counted loop detected")
            } else {
                estimate(ComplexityClass::Linear, 600, "Single loop (possibly unbounded)")
            }
        } else if max_d == 2 {
            if all {
                estimate(ComplexityClass::Quadratic, 800, "Nested loops (depth 2) detected")
            } else {
                estimate(ComplexityClass::Quadratic, 500, "Nested loops (depth 2, possibly unbounded)")
            }
        } else if max_d == 3 {
            estimate(ComplexityClass::Cubic, 700, "Triple nested loops detected")
        } else {
            let mut text = owned("Nested loops (depth ");
            text.append(decimal(max_d).as_str());
            text.append(") detected");
            ComplexityEstimate { class: ComplexityClass::Polynomial(max_d as u32), confidence_permille: 600, justification: text }
        };
        Some(e)
    }

    /// The estimate from `recursion` ([`recursion_estimate`]).
    fn analyze_recursion_complexity(&self, cpg: &CodePropertyGraph, function: NodeId, recursion: &RecursionPattern) -> (r: ComplexityEstimate)
        requires
            cpg.wf(),
        ensures
            holds(r, recursion_estimate(recursion.kind, recursion.recursive_calls@.len() as usize,
                recursion.base_cases@.len() > 0, divides_input(*cpg, function))),
    {
        let num_recursive_calls = recursion.recursive_calls.len();
        let has_base_cases = recursion.base_cases.len() > 0;
        let is_divide_conquer = self.is_divide_and_conquer(cpg, function);
        match recursion.kind {
            RecursionKind::Tail => estimate(ComplexityClass::Linear, 800, "Tail recursion detected (equivalent to iteration)"),
            RecursionKind::Direct | RecursionKind::Indirect => {
                if is_divide_conquer {
                    if num_recursive_calls == 1 {
                        estimate(ComplexityClass::Logarithmic, 800, "Binary search pattern detected (single recursive call with halving)")
                    } else if num_recursive_calls == 2 {
                        estimate(ComplexityClass::Linearithmic, 700, "Merge sort/divide-and-conquer pattern detected (2 calls with halving)")
                    } else {
                        let mut text = owned("Divide-and-conquer with ");
                        text.append(decimal(num_recursive_calls).as_str());
                        text.append(" recursive calls");
                        ComplexityEstimate {
                            class: ComplexityClass::Polynomial(num_recursive_calls as u32),
                            confidence_permille: 500,
                            justification: text,
                        }
                    }
                } else if num_recursive_calls == 1 {
                    if has_base_cases {
                        estimate(ComplexityClass::Linear, 700, "Linear recursion detected")
                    } else {
                        estimate(ComplexityClass::Linear, 400, "Recursion without clear base case")
                    }
                } else if num_recursive_calls == 2 {
                    estimate(ComplexityClass::Exponential, 700, "Binary recursion (e.g., naive Fibonacci) detected")
                } else {
                    let mut text = owned("Multiple recursive calls (");
                    text.append(decimal(num_recursive_calls).as_str());
                    text.append(") detected");
                    ComplexityEstimate { class: ComplexityClass::Exponential, confidence_permille: 600, justification: text }
                }
            },
        }
    }

    /// Whether the input of `function` is halved ([`divides_input`]).
    fn is_divide_and_conquer(&self, cpg: &CodePropertyGraph, function: NodeId) -> (r: bool)
        requires
            cpg.wf(),
        ensures
            r == divides_input(*cpg, function),
    {
        let descendants = cpg.ast_descendants(function);
        let mut i: usize = 0;
        while i < descendants.len()
            invariant
                descendants@ == below_ids(*cpg, function, cpg.nodes_view().len() as int),
                i <= descendants@.len(),
                forall|t: int| 0 <= t < i ==> !#[trigger] halving_witness(*cpg, descendants@[t]),
            decreases descendants@.len() - i,
        {
            if halves(cpg, descendants[i]) {
                return true;
            }
            i = i + 1;
        }
        false
    }

    /// Whether `function` allocates a collection ([`allocates`]).
    fn detect_allocations(&self, cpg: &CodePropertyGraph, function: NodeId) -> (r: bool)
        requires
            cpg.wf(),
        ensures
            r == allocates(*cpg, function),
    {
        let descendants = cpg.ast_descendants(function);
        let mut i: usize = 0;
        while i < descendants.len()
            invariant
                descendants@ == below_ids(*cpg, function, cpg.nodes_view().len() as int),
                i <= descendants@.len(),
                forall|t: int| 0 <= t < i ==> !#[trigger] allocation_witness(*cpg, descendants@[t]),
            decreases descendants@.len() - i,
        {
            if allocates_at(cpg, descendants[i]) {
                return true;
            }
            i = i + 1;
        }
        false
    }
}

/// Whether `v` shows the input being halved ([`halving_witness`]).
fn halves(cpg: &CodePropertyGraph, v: NodeId) -> (r: bool)
    ensures
        r == halving_witness(*cpg, v),
{
    let node = match cpg.node(v) {
        Some(n) => n,
        None => return false,
    };
    match &node.kind {
        CpgNodeKind::BinaryOp { operator } => {
            if !(str_eq(operator.as_str(), "/") || str_eq(operator.as_str(), ">>")) {
                return false;
            }
            let children = cpg.ast_children(v);
            let mut i: usize = 0;
            while i < children.len()
                invariant
                    cpg.valid(v),
                    (cpg.at(v).kind matches CpgNodeKind::BinaryOp { operator } && (operator@ == "/"@ || operator@ == ">>"@)),
                    children@ == children_of(*cpg, v),
                    i <= children@.len(),
                    forall|t: int| 0 <= t < i ==> !#[trigger] is_two(*cpg, children@[t]),
                decreases children@.len() - i,
            {
                if let Some(child) = cpg.node(children[i]) {
                    if let CpgNodeKind::Literal { kind: LiteralKind::Integer(x) } = &child.kind {
                        if *x == 2 {
                            assert(is_two(*cpg, children@[i as int]));
                            return true;
                        }
                    }
                }
                i = i + 1;
            }
            false
        },
        CpgNodeKind::Identifier { name, .. } => {
            let lower = to_lower(name.as_str());
            let l = lower.as_str();
            str_eq(l, "mid") || str_eq(l, "middle") || str_eq(l, "pivot") || str_contains(l, "half")
        },
        _ => false,
    }
}

/// Whether `v` allocates a collection ([`allocation_witness`]).
fn allocates_at(cpg: &CodePropertyGraph, v: NodeId) -> (r: bool)
    ensures
        r == allocation_witness(*cpg, v),
{
    let node = match cpg.node(v) {
        Some(n) => n,
        None => return false,
    };
    match &node.kind {
        CpgNodeKind::Literal { kind: LiteralKind::Array } => true,
        CpgNodeKind::Call { .. } => {
            let children = cpg.ast_children(v);
            let mut i: usize = 0;
            while i < children.len()
                invariant
                    cpg.valid(v),
                    cpg.at(v).kind is Call,
                    children@ == children_of(*cpg, v),
                    i <= children@.len(),
                    forall|t: int| 0 <= t < i ==> !#[trigger] allocating_name(*cpg, children@[t]),
                decreases children@.len() - i,
            {
                if let Some(child) = cpg.node(children[i]) {
                    let name: Option<&String> = match &child.kind {
                        CpgNodeKind::Identifier { name, .. } => Some(name),
                        CpgNodeKind::MemberAccess { member } => Some(member),
                        _ => None,
                    };
                    if let Some(name) = name {
                        let lower = to_lower(name.as_str());
                        let l = lower.as_str();
                        if str_contains(l, "vec") || str_contains(l, "new") || str_contains(l, "alloc")
                            || str_contains(l, "create") || str_contains(l, "clone") || str_contains(l, "collect") {
                            assert(allocating_name(*cpg, children@[i as int]));
                            return true;
                        }
                    }
                }
                i = i + 1;
            }
            false
        },
        _ => false,
    }
}

} // verus!
