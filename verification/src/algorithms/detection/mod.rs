//! Algorithm detection: reads a function's loops, recursion and complexity
//! off its syntax tree, then recognises algorithm families from syntactic
//! clues (a comparison, a swap, a visited set, a memo table, ...), each with
//! a confidence in thousandths.

pub mod complexity;
pub mod control_flow;

use vstd::prelude::*;
use crate::algorithms::families::AlgorithmFamily;
use crate::algorithms::signatures::{
    AlgorithmSignature, ComplexityClass, ComplexityEstimate, LoopBounds, LoopStructure, LoopType,
    ReductionPattern, SigLoopKind, SigRecursionKind,
};
use crate::algorithms::signatures::RecursionPattern as SigRecursionPattern;
use crate::graph::{ancestor_chain, copy_ids, CodePropertyGraph, CpgNodeKind, LiteralKind, NodeId};
use crate::overlay::below_ids;
use crate::text::{lowercase_of, owned, str_contains, str_eq, text_has, to_lower};
use self::complexity::{holds, max_depth, recurses, time_estimate, ComplexityAnalyzer};
use self::control_flow::{
    any_node, children_of, count_nodes, function_name, is_comparison, is_return, lemma_count_nodes_step, loops_of,
    nests_loops, recursive_calls_of, ControlFlowAnalyzer, LoopKind, LoopPattern, RecursionKind, RecursionPattern,
};

verus! {

/// Recognises algorithm families in a function.
pub trait AlgorithmDetector {
    /// The algorithms recognised in `function`.
    fn detect(&self, cpg: &CodePropertyGraph, function: NodeId) -> (r: Vec<DetectedAlgorithm>)
        requires
            cpg.wf(),
    ;

    /// The families this detector can recognise.
    fn supported_families(&self) -> (r: Vec<AlgorithmFamily>);
}

/// An algorithm recognised in a function.
#[derive(Debug, Clone)]
pub struct DetectedAlgorithm {
    /// The algorithm family.
    pub family: AlgorithmFamily,
    /// The specific algorithm, where one can be named.
    pub name: Option<String>,
    /// The function holding it.
    pub function: NodeId,
    /// Key nodes of the implementation.
    pub key_nodes: Vec<NodeId>,
    /// What was read off the function.
    pub signature: AlgorithmSignature,
    /// Confidence, in thousandths.
    pub confidence_permille: u32,
}

/// A detection as plain values: family, confidence in thousandths, name.
pub type Finding = (AlgorithmFamily, u32, Option<Seq<char>>);

/// The plain values of a detection.
pub open spec fn finding_of(d: DetectedAlgorithm) -> Finding {
    (d.family, d.confidence_permille, match d.name { Some(s) => Some(s@), None => None })
}

/// A signature that records nothing.
pub open spec fn blank(s: AlgorithmSignature) -> bool {
    &&& s.loop_structure is None
    &&& s.recursion_pattern is None
    &&& s.time_complexity is None
    &&& s.space_complexity is None
}

impl DetectedAlgorithm {
    /// A detection of `family` in `function` with a blank signature, no name
    /// and no key nodes.
    pub fn new(family: AlgorithmFamily, function: NodeId, confidence_permille: u32) -> (r: DetectedAlgorithm)
        ensures
            r.family == family,
            r.name is None,
            r.function == function,
            r.key_nodes@.len() == 0,
            blank(r.signature),
            r.confidence_permille == confidence_permille,
    {
        DetectedAlgorithm {
            family,
            name: None,
            function,
            key_nodes: Vec::new(),
            signature: AlgorithmSignature::new(),
            confidence_permille,
        }
    }

    /// Names the algorithm.
    pub fn with_name(self, name: &str) -> (r: DetectedAlgorithm)
        ensures
            r.name matches Some(s) && s@ == name@,
            r.family == self.family,
            r.function == self.function,
            r.key_nodes == self.key_nodes,
            r.signature == self.signature,
            r.confidence_permille == self.confidence_permille,
    {
        DetectedAlgorithm { name: Some(owned(name)), ..self }
    }

    /// Adds a key node.
    pub fn with_key_node(self, node: NodeId) -> (r: DetectedAlgorithm)
        ensures
            r.key_nodes@ == self.key_nodes@.push(node),
            r.family == self.family,
            r.name == self.name,
            r.function == self.function,
            r.signature == self.signature,
            r.confidence_permille == self.confidence_permille,
    {
        let mut r = self;
        r.key_nodes.push(node);
        r
    }

    /// Sets the signature.
    pub fn with_signature(self, signature: AlgorithmSignature) -> (r: DetectedAlgorithm)
        ensures
            r.signature == signature,
            r.family == self.family,
            r.name == self.name,
            r.function == self.function,
            r.key_nodes == self.key_nodes,
            r.confidence_permille == self.confidence_permille,
    {
        DetectedAlgorithm { signature, ..self }
    }
}

// ---------------------------------------------------------------------------
// Clues
// ---------------------------------------------------------------------------

/// A clue that a single node of a function can show.
#[derive(Debug, Clone, Copy, PartialEq, Eq, Structural)]
pub enum Clue {
    /// A comparison operator.
    Comparison,
    /// An assignment.
    Assignment,
    /// A name mentioning a swap.
    Swap,
    /// An index access.
    Index,
    /// A name of a queue operation.
    Queue,
    /// A name of a stack operation.
    Stack,
    /// A variable tracking visited vertices.
    Visited,
    /// A variable holding a memo table.
    Memo,
}

/// The name an identifier or member access spells.
pub open spec fn spelled(k: CpgNodeKind) -> Option<Seq<char>> {
    match k {
        CpgNodeKind::Identifier { name, .. } => Some(name@),
        CpgNodeKind::MemberAccess { member } => Some(member@),
        _ => None,
    }
}

/// The name a variable spells.
pub open spec fn variable(k: CpgNodeKind) -> Option<Seq<char>> {
    match k {
        CpgNodeKind::Identifier { name, .. } => Some(name@),
        _ => None,
    }
}

/// A lower-cased name of a queue operation.
pub open spec fn queue_word(s: Seq<char>) -> bool {
    text_has(s, "queue"@) || text_has(s, "push_back"@) || text_has(s, "pop_front"@) || text_has(s, "deque"@)
        || text_has(s, "enqueue"@) || text_has(s, "dequeue"@)
}

/// A lower-cased name of a stack operation.
pub open spec fn stack_word(s: Seq<char>) -> bool {
    text_has(s, "stack"@) || s == "push"@ || s == "pop"@
}

/// A lower-cased name of a visited set.
pub open spec fn visited_word(s: Seq<char>) -> bool {
    text_has(s, "visited"@) || text_has(s, "seen"@) || text_has(s, "marked"@)
}

/// A lower-cased name of a memo table.
pub open spec fn memo_word(s: Seq<char>) -> bool {
    text_has(s, "memo"@) || text_has(s, "dp"@) || text_has(s, "cache"@) || text_has(s, "table"@) || s == "f"@
        || s == "dp_table"@
}

/// Whether a node of kind `k` shows clue `c`.
pub open spec fn shows(c: Clue, k: CpgNodeKind) -> bool {
    match c {
        Clue::Comparison => is_comparison(k),
        Clue::Assignment => k is Assignment,
        Clue::Swap => spelled(k) matches Some(s) && text_has(lowercase_of(s), "swap"@),
        Clue::Index => k is IndexAccess,
        Clue::Queue => spelled(k) matches Some(s) && queue_word(lowercase_of(s)),
        Clue::Stack => spelled(k) matches Some(s) && stack_word(lowercase_of(s)),
        Clue::Visited => variable(k) matches Some(s) && visited_word(lowercase_of(s)),
        Clue::Memo => variable(k) matches Some(s) && memo_word(lowercase_of(s)),
    }
}

/// The nodes below `function` in the syntax tree, in id order.
pub open spec fn nodes_below(g: CodePropertyGraph, function: NodeId) -> Seq<NodeId> {
    below_ids(g, function, g.nodes_view().len() as int)
}

/// Some node below `function` shows clue `c`.
pub open spec fn has_clue(g: CodePropertyGraph, function: NodeId, c: Clue) -> bool {
    any_node(g, nodes_below(g, function), |k: CpgNodeKind| shows(c, k))
}

/// An integer literal of value `x`.
pub open spec fn is_int(g: CodePropertyGraph, v: NodeId, x: i64) -> bool {
    g.valid(v) && (g.at(v).kind matches CpgNodeKind::Literal { kind: LiteralKind::Integer(y) } && y == x)
}

/// An addition of the literal 1, as in `a[i + 1]`.
pub open spec fn next_index(g: CodePropertyGraph, v: NodeId) -> bool {
    &&& g.valid(v)
    &&& g.at(v).kind matches CpgNodeKind::BinaryOp { operator } && operator@ == "+"@
    &&& exists|i: int| 0 <= i < children_of(g, v).len() && #[trigger] is_int(g, children_of(g, v)[i], 1)
}

/// The literal 2 or 1 as the operand of a halving.
pub open spec fn halving_operand(g: CodePropertyGraph, v: NodeId) -> bool {
    is_int(g, v, 2) || is_int(g, v, 1)
}

/// A midpoint: a division by, or right shift of, the literal 2 or 1, or a
/// variable named `mid` or `middle`.
pub open spec fn midpoint(g: CodePropertyGraph, v: NodeId) -> bool {
    &&& g.valid(v)
    &&& match g.at(v).kind {
        CpgNodeKind::BinaryOp { operator } => (operator@ == "/"@ || operator@ == ">>"@)
            && exists|i: int| 0 <= i < children_of(g, v).len() && #[trigger] halving_operand(g, children_of(g, v)[i]),
        CpgNodeKind::Identifier { name, .. } => lowercase_of(name@) == "mid"@ || lowercase_of(name@) == "middle"@,
        _ => false,
    }
}

/// A return inside a `for`, `while` or `loop`.
pub open spec fn early_return(g: CodePropertyGraph, v: NodeId) -> bool {
    is_return(g, v) && any_node(g, ancestor_chain(&g, v, g.nodes_view().len() as nat), |k: CpgNodeKind| nests_loops(k))
}

/// An addition of the literal 1 lies below `function`.
pub open spec fn has_next_index(g: CodePropertyGraph, function: NodeId) -> bool {
    exists|i: int| 0 <= i < nodes_below(g, function).len() && #[trigger] next_index(g, nodes_below(g, function)[i])
}

/// A midpoint lies below `function`.
pub open spec fn has_midpoint(g: CodePropertyGraph, function: NodeId) -> bool {
    exists|i: int| 0 <= i < nodes_below(g, function).len() && #[trigger] midpoint(g, nodes_below(g, function)[i])
}

/// A return inside a loop lies below `function`.
pub open spec fn has_early_return(g: CodePropertyGraph, function: NodeId) -> bool {
    exists|i: int| 0 <= i < nodes_below(g, function).len() && #[trigger] early_return(g, nodes_below(g, function)[i])
}

/// Swaps: three or more assignments, or a name mentioning a swap.
pub open spec fn has_swap(g: CodePropertyGraph, function: NodeId) -> bool {
    count_nodes(g, nodes_below(g, function), |k: CpgNodeKind| shows(Clue::Assignment, k)) >= 3
        || has_clue(g, function, Clue::Swap)
}

// ---------------------------------------------------------------------------
// Findings of each family
// ---------------------------------------------------------------------------

/// The sorting finding: nested loops with a comparison, named by the swaps
/// and indexing seen, at a confidence set by the time class.
#[verifier::opaque]
pub open spec fn sorting_finding(g: CodePropertyGraph, function: NodeId) -> Option<Finding> {
    if loops_of(g, function).len() == 0 || !has_clue(g, function, Clue::Comparison) {
        None
    } else {
        match time_estimate(g, function).0 {
            ComplexityClass::Quadratic => Some(if has_swap(g, function) {
                if has_next_index(g, function) {
                    (AlgorithmFamily::Sorting, 700u32, Some("Bubble Sort"@))
                } else {
                    (AlgorithmFamily::Sorting, 600u32, Some("Selection Sort"@))
                }
            } else if has_clue(g, function, Clue::Index) {
                (AlgorithmFamily::Sorting, 600u32, Some("Insertion Sort"@))
            } else {
                (AlgorithmFamily::Sorting, 500u32, None)
            }),
            ComplexityClass::Linearithmic => Some((AlgorithmFamily::Sorting, 600u32, None)),
            ComplexityClass::Linear => Some((AlgorithmFamily::Sorting, 400u32, None)),
            _ => None,
        }
    }
}

/// The searching finding: a comparison, in logarithmic time (binary search
/// with recursion or a midpoint) or linear time (a linear search with one
/// loop and an early return).
#[verifier::opaque]
pub open spec fn searching_finding(g: CodePropertyGraph, function: NodeId) -> Option<Finding> {
    if !has_clue(g, function, Clue::Comparison) {
        None
    } else {
        match time_estimate(g, function).0 {
            ComplexityClass::Logarithmic => Some(
                if recurses(g, function) || has_midpoint(g, function) {
                    (AlgorithmFamily::Searching, 800u32, Some("Binary Search"@))
                } else {
                    (AlgorithmFamily::Searching, 600u32, None)
                },
            ),
            ComplexityClass::Linear => Some(
                if loops_of(g, function).len() == 1 && has_early_return(g, function) {
                    (AlgorithmFamily::Searching, 700u32, Some("Linear Search"@))
                } else {
                    (AlgorithmFamily::Searching, 500u32, None)
                },
            ),
            _ => None,
        }
    }
}

/// The graph-traversal finding: a visited set, with a queue (breadth first)
/// or a stack or `while` loop (depth first).
#[verifier::opaque]
pub open spec fn graph_finding(g: CodePropertyGraph, function: NodeId) -> Option<Finding> {
    if !has_clue(g, function, Clue::Visited) {
        None
    } else if has_clue(g, function, Clue::Queue) {
        Some((AlgorithmFamily::GraphTraversal, 700u32, Some("BFS"@)))
    } else if has_clue(g, function, Clue::Stack)
        || exists|i: int| 0 <= i < loops_of(g, function).len() && #[trigger] loops_of(g, function)[i].kind == LoopKind::While {
        Some((AlgorithmFamily::GraphTraversal, 600u32, Some("DFS"@)))
    } else {
        None
    }
}

/// The dynamic-programming finding: a memo table, more confident with nested loops.
#[verifier::opaque]
pub open spec fn dp_finding(g: CodePropertyGraph, function: NodeId) -> Option<Finding> {
    if !has_clue(g, function, Clue::Memo) {
        None
    } else if exists|i: int| 0 <= i < loops_of(g, function).len() && #[trigger] loops_of(g, function)[i].depth >= 2 {
        Some((AlgorithmFamily::DynamicProgramming, 700u32, None))
    } else {
        Some((AlgorithmFamily::DynamicProgramming, 500u32, None))
    }
}

/// The divide-and-conquer finding: recursion in logarithmic or linearithmic
/// time, as confident as its number of self-calls suggests.
#[verifier::opaque]
pub open spec fn dc_finding(g: CodePropertyGraph, function: NodeId) -> Option<Finding> {
    if !recurses(g, function) {
        None
    } else if !(time_estimate(g, function).0 is Logarithmic || time_estimate(g, function).0 is Linearithmic) {
        None
    } else {
        let calls = recursive_calls_of(g, function).len();
        Some((AlgorithmFamily::DivideAndConquer, if calls == 1 { 600u32 } else if calls == 2 { 700u32 } else { 500u32 }, None))
    }
}

/// A finding, unless its confidence is below `min`.
pub open spec fn kept(f: Option<Finding>, min: u32) -> Option<Finding> {
    match f {
        Some(x) => if x.1 >= min { Some(x) } else { None },
        None => None,
    }
}

/// `x` is one of the findings in `function` at confidence `min` or more.
pub open spec fn found(g: CodePropertyGraph, function: NodeId, min: u32, x: Finding) -> bool {
    ||| kept(sorting_finding(g, function), min) == Some(x)
    ||| kept(searching_finding(g, function), min) == Some(x)
    ||| kept(graph_finding(g, function), min) == Some(x)
    ||| kept(dp_finding(g, function), min) == Some(x)
    ||| kept(dc_finding(g, function), min) == Some(x)
}

/// The position of a family among the detectors, in the order they run.
pub open spec fn family_order(f: AlgorithmFamily) -> int {
    match f {
        AlgorithmFamily::Sorting => 0,
        AlgorithmFamily::Searching => 1,
        AlgorithmFamily::GraphTraversal => 2,
        AlgorithmFamily::DynamicProgramming => 3,
        AlgorithmFamily::DivideAndConquer => 4,
        _ => 5,
    }
}

/// `a` is reported before `b`: more confident, or as confident and found
/// by an earlier detector.
pub open spec fn ranked_before(a: Finding, b: Finding) -> bool {
    a.1 > b.1 || (a.1 == b.1 && family_order(a.0) < family_order(b.0))
}

// ---------------------------------------------------------------------------
// Signatures
// ---------------------------------------------------------------------------

/// The signature kind of a loop's syntax.
pub open spec fn sig_loop_kind(k: LoopKind) -> SigLoopKind {
    match k {
        LoopKind::For => SigLoopKind::CountedFor,
        LoopKind::While => SigLoopKind::While,
        LoopKind::DoWhile => SigLoopKind::DoWhile,
        LoopKind::Infinite => SigLoopKind::Infinite,
        LoopKind::Iterator => SigLoopKind::ForEach,
    }
}

/// `t` records loop `l`: its node, kind and nesting depth counted from 0 for
/// the outermost loop (the pattern counts from 1), linear bounds when counted
/// and unknown otherwise, and no early exit.
pub open spec fn describes_loop(t: LoopType, l: LoopPattern) -> bool {
    &&& t.header == l.header
    &&& t.kind == sig_loop_kind(l.kind)
    &&& t.depth == if l.depth == 0 { 0 } else { (l.depth - 1) as usize }
    &&& if l.is_counted { t.bounds is LinearN } else { t.bounds is Unknown }
    &&& !t.has_early_exit
}

/// `s` records `loops`, taking them as dependent.
pub open spec fn describes_loops(s: LoopStructure, loops: Seq<LoopPattern>) -> bool {
    &&& s.max_depth == max_depth(loops)
    &&& s.loop_count == loops.len()
    &&& s.loop_types@.len() == loops.len()
    &&& forall|i: int| 0 <= i < loops.len() ==> describes_loop(#[trigger] s.loop_types@[i], loops[i])
    &&& !s.loops_independent
}

/// The signature kind of a recursion kind.
pub open spec fn sig_recursion_kind(k: RecursionKind) -> SigRecursionKind {
    match k {
        RecursionKind::Direct => SigRecursionKind::Direct,
        RecursionKind::Indirect => SigRecursionKind::Indirect,
        RecursionKind::Tail => SigRecursionKind::Tail,
    }
}

/// `p` records recursion `r`, with an unknown reduction, tail-optimizable
/// when it is tail recursion.
pub open spec fn describes_recursion(p: SigRecursionPattern, r: RecursionPattern) -> bool {
    &&& p.kind == sig_recursion_kind(r.kind)
    &&& p.base_cases@ == r.base_cases@
    &&& p.recursive_calls@ == r.recursive_calls@
    &&& p.reduction is Unknown
    &&& p.tail_optimizable == (r.kind == RecursionKind::Tail)
}

/// The signature of a sorting detection in `function`: its loops and its
/// time estimate.
#[verifier::opaque]
pub open spec fn sorting_signature(g: CodePropertyGraph, function: NodeId, s: AlgorithmSignature) -> bool {
    &&& (s.loop_structure matches Some(ls) && describes_loops(ls, loops_of(g, function)))
    &&& s.recursion_pattern is None
    &&& (s.time_complexity matches Some(e) && holds(e, time_estimate(g, function)))
    &&& s.space_complexity is None
}

/// `d` is a detection reported in `function` at confidence `min` or more:
/// one of the findings, with no key nodes, and the signature its family
/// carries (loops and time for sorting, none otherwise).
pub open spec fn reported(g: CodePropertyGraph, function: NodeId, min: u32, d: DetectedAlgorithm) -> bool {
    &&& found(g, function, min, finding_of(d))
    &&& d.function == function
    &&& d.key_nodes@.len() == 0
    &&& if d.family == AlgorithmFamily::Sorting { sorting_signature(g, function, d.signature) } else { blank(d.signature) }
}

/// A detection of `family` in `function`, as the finding `f` describes.
pub open spec fn detection_of(g: CodePropertyGraph, function: NodeId, min: u32, f: Option<Finding>, r: Option<DetectedAlgorithm>) -> bool {
    match r {
        Some(d) => kept(f, min) == Some(finding_of(d)) && reported(g, function, min, d),
        None => kept(f, min) is None,
    }
}

/// Detections in order: each ranked before the next.
pub open spec fn in_rank_order(s: Seq<DetectedAlgorithm>) -> bool {
    forall|i: int, j: int| 0 <= i < j < s.len() ==> ranked_before(finding_of(#[trigger] s[i]), finding_of(#[trigger] s[j]))
}

/// The families the detector advertises.
pub open spec fn advertised() -> Seq<AlgorithmFamily> {
    seq![
        AlgorithmFamily::Sorting,
        AlgorithmFamily::Searching,
        AlgorithmFamily::GraphTraversal,
        AlgorithmFamily::DynamicProgramming,
        AlgorithmFamily::DivideAndConquer,
        AlgorithmFamily::Greedy,
    ]
}

/// Reported detections clear the threshold, belong to an advertised family
/// and point at the analysed function, and a list in rank order never rises
/// in confidence.
pub proof fn law_detections_bounded_and_sorted(g: CodePropertyGraph, function: NodeId, min: u32, r: Seq<DetectedAlgorithm>)
    requires
        forall|i: int| 0 <= i < r.len() ==> #[trigger] reported(g, function, min, r[i]),
        in_rank_order(r),
    ensures
        forall|i: int| 0 <= i < r.len() ==> (#[trigger] r[i]).confidence_permille >= min && r[i].function == function
            && advertised().contains(r[i].family),
        forall|i: int, j: int| 0 <= i < j < r.len() ==> (#[trigger] r[i]).confidence_permille >= (#[trigger] r[j]).confidence_permille,
{
    reveal(sorting_finding);
    reveal(searching_finding);
    reveal(graph_finding);
    reveal(dp_finding);
    reveal(dc_finding);
    assert forall|i: int| 0 <= i < r.len() implies (#[trigger] r[i]).confidence_permille >= min && r[i].function == function
        && advertised().contains(r[i].family) by {
        assert(reported(g, function, min, r[i]));
        let f = r[i].family;
        assert(advertised()[0] == AlgorithmFamily::Sorting);
        assert(advertised()[1] == AlgorithmFamily::Searching);
        assert(advertised()[2] == AlgorithmFamily::GraphTraversal);
        assert(advertised()[3] == AlgorithmFamily::DynamicProgramming);
        assert(advertised()[4] == AlgorithmFamily::DivideAndConquer);
    }
    assert forall|i: int, j: int| 0 <= i < j < r.len() implies (#[trigger] r[i]).confidence_permille >= (#[trigger] r[j]).confidence_permille by {
        assert(ranked_before(finding_of(r[i]), finding_of(r[j])));
    }
}

// ---------------------------------------------------------------------------
// The detector
// ---------------------------------------------------------------------------

/// The detector that reads control flow and complexity.
#[derive(Debug)]
pub struct DefaultAlgorithmDetector {
    /// Detections below this confidence, in thousandths, are dropped.
    pub min_confidence_permille: u32,
    /// Reads the loops and the recursion.
    pub control_flow: ControlFlowAnalyzer,
    /// Estimates the complexity.
    pub complexity: ComplexityAnalyzer,
}

impl Default for DefaultAlgorithmDetector {
    fn default() -> (r: DefaultAlgorithmDetector)
        ensures
            r.min_confidence_permille == 0,
    {
        DefaultAlgorithmDetector { min_confidence_permille: 0, control_flow: ControlFlowAnalyzer::new(), complexity: ComplexityAnalyzer::new() }
    }
}

impl DefaultAlgorithmDetector {
    /// A detector that keeps detections of confidence one half or more.
    pub fn new() -> (r: DefaultAlgorithmDetector)
        ensures
            r.min_confidence_permille == 500,
    {
        DefaultAlgorithmDetector { min_confidence_permille: 500, control_flow: ControlFlowAnalyzer::new(), complexity: ComplexityAnalyzer::new() }
    }

    /// Sets the confidence, in thousandths, below which detections are dropped.
    pub fn with_min_confidence(self, confidence_permille: u32) -> (r: DefaultAlgorithmDetector)
        ensures
            r.min_confidence_permille == confidence_permille,
    {
        DefaultAlgorithmDetector { min_confidence_permille: confidence_permille, ..self }
    }

    /// A detection of `family` named `name`, unless below the threshold.
    fn finish(&self, family: AlgorithmFamily, function: NodeId, confidence: u32, name: Option<&str>) -> (r: Option<DetectedAlgorithm>)
        ensures
            r matches Some(d) ==> confidence >= self.min_confidence_permille && d.family == family && d.function == function
                && d.confidence_permille == confidence && d.key_nodes@.len() == 0 && blank(d.signature)
                && (match name { Some(n) => d.name matches Some(s) && s@ == n@, None => d.name is None }),
            r is None <==> confidence < self.min_confidence_permille,
    {
        if confidence < self.min_confidence_permille {
            return None;
        }
        let algo = DetectedAlgorithm::new(family, function, confidence);
        match name {
            Some(n) => Some(algo.with_name(n)),
            None => Some(algo),
        }
    }

    /// The sorting detection ([`sorting_finding`]), with the loops and the
    /// time estimate as its signature.
    fn detect_sorting(&self, cpg: &CodePropertyGraph, function: NodeId, loops: &Vec<LoopPattern>, time_complexity: &ComplexityEstimate) -> (r: Option<DetectedAlgorithm>)
        requires
            cpg.wf(),
            loops@ == loops_of(*cpg, function),
            holds(*time_complexity, time_estimate(*cpg, function)),
        ensures
            detection_of(*cpg, function, self.min_confidence_permille, sorting_finding(*cpg, function), r),
            r matches Some(d) ==> d.family == AlgorithmFamily::Sorting,
    {
        reveal(sorting_finding);
        reveal(sorting_signature);
        if loops.len() == 0 {
            return None;
        }
        let has_comparisons = self.has_clue(cpg, function, Clue::Comparison);
        let has_swaps = self.has_swap_pattern(cpg, function);
        let has_array_access = self.has_clue(cpg, function, Clue::Index);
        if !has_comparisons {
            return None;
        }
        let candidate = match time_complexity.class {
            ComplexityClass::Quadratic => {
                if has_swaps {
                    if self.has_adjacent_swap_pattern(cpg, function) {
                        self.finish(AlgorithmFamily::Sorting, function, 700, Some("Bubble Sort"))
                    } else {
                        self.finish(AlgorithmFamily::Sorting, function, 600, Some("Selection Sort"))
                    }
                } else if has_array_access {
                    self.finish(AlgorithmFamily::Sorting, function, 600, Some("Insertion Sort"))
                } else {
                    self.finish(AlgorithmFamily::Sorting, function, 500, None)
                }
            },
            ComplexityClass::Linearithmic => self.finish(AlgorithmFamily::Sorting, function, 600, None),
            ComplexityClass::Linear => self.finish(AlgorithmFamily::Sorting, function, 400, None),
            _ => return None,
        };
        match candidate {
            Some(algo) => {
                let sig = build_signature(loops, None, copy_estimate(time_complexity));
                Some(algo.with_signature(sig))
            },
            None => None,
        }
    }

    /// The searching detection ([`searching_finding`]).
    fn detect_searching(
        &self,
        cpg: &CodePropertyGraph,
        function: NodeId,
        loops: &Vec<LoopPattern>,
        recursion: &Option<RecursionPattern>,
        time_complexity: &ComplexityEstimate,
    ) -> (r: Option<DetectedAlgorithm>)
        requires
            cpg.wf(),
            loops@ == loops_of(*cpg, function),
            recursion is Some <==> recurses(*cpg, function),
            holds(*time_complexity, time_estimate(*cpg, function)),
        ensures
            detection_of(*cpg, function, self.min_confidence_permille, searching_finding(*cpg, function), r),
            r matches Some(d) ==> d.family == AlgorithmFamily::Searching,
    {
        reveal(searching_finding);
        let has_comparisons = self.has_clue(cpg, function, Clue::Comparison);
        let has_early_return = self.has_early_return(cpg, function);
        if !has_comparisons {
            return None;
        }
        match time_complexity.class {
            ComplexityClass::Logarithmic => {
                if recursion.is_some() || self.has_midpoint_calculation(cpg, function) {
                    self.finish(AlgorithmFamily::Searching, function, 800, Some("Binary Search"))
                } else {
                    self.finish(AlgorithmFamily::Searching, function, 600, None)
                }
            },
            ComplexityClass::Linear => {
                if loops.len() == 1 && has_early_return {
                    self.finish(AlgorithmFamily::Searching, function, 700, Some("Linear Search"))
                } else {
                    self.finish(AlgorithmFamily::Searching, function, 500, None)
                }
            },
            _ => None,
        }
    }

    /// The graph-traversal detection ([`graph_finding`]).
    fn detect_graph(&self, cpg: &CodePropertyGraph, function: NodeId, loops: &Vec<LoopPattern>) -> (r: Option<DetectedAlgorithm>)
        requires
            cpg.wf(),
            loops@ == loops_of(*cpg, function),
        ensures
            detection_of(*cpg, function, self.min_confidence_permille, graph_finding(*cpg, function), r),
            r matches Some(d) ==> d.family == AlgorithmFamily::GraphTraversal,
    {
        reveal(graph_finding);
        let has_queue = self.has_clue(cpg, function, Clue::Queue);
        let has_stack = self.has_clue(cpg, function, Clue::Stack);
        let has_visited = self.has_clue(cpg, function, Clue::Visited);
        if !has_visited {
            return None;
        }
        if has_queue {
            return self.finish(AlgorithmFamily::GraphTraversal, function, 700, Some("BFS"));
        }
        let mut has_while = false;
        let mut i: usize = 0;
        while i < loops.len()
            invariant
                i <= loops@.len(),
                has_while == exists|t: int| 0 <= t < i && #[trigger] loops@[t].kind == LoopKind::While,
            decreases loops@.len() - i,
        {
            if loops[i].kind == LoopKind::While {
                has_while = true;
            }
            i = i + 1;
        }
        if has_stack || has_while {
            self.finish(AlgorithmFamily::GraphTraversal, function, 600, Some("DFS"))
        } else {
            None
        }
    }

    /// The dynamic-programming detection ([`dp_finding`]).
    fn detect_dp(&self, cpg: &CodePropertyGraph, function: NodeId, loops: &Vec<LoopPattern>) -> (r: Option<DetectedAlgorithm>)
        requires
            cpg.wf(),
            loops@ == loops_of(*cpg, function),
        ensures
            detection_of(*cpg, function, self.min_confidence_permille, dp_finding(*cpg, function), r),
            r matches Some(d) ==> d.family == AlgorithmFamily::DynamicProgramming,
    {
        reveal(dp_finding);
        let has_table = self.has_clue(cpg, function, Clue::Memo);
        let mut has_nested_loops = false;
        let mut i: usize = 0;
        while i < loops.len()
            invariant
                i <= loops@.len(),
                has_nested_loops == exists|t: int| 0 <= t < i && #[trigger] loops@[t].depth >= 2,
            decreases loops@.len() - i,
        {
            if loops[i].depth >= 2 {
                has_nested_loops = true;
            }
            i = i + 1;
        }
        if !has_table {
            return None;
        }
        let confidence: u32 = if has_nested_loops { 700 } else { 500 };
        self.finish(AlgorithmFamily::DynamicProgramming, function, confidence, None)
    }

    /// The divide-and-conquer detection ([`dc_finding`]).
    fn detect_divide_conquer(
        &self,
        cpg: &CodePropertyGraph,
        function: NodeId,
        recursion: &Option<RecursionPattern>,
        time_complexity: &ComplexityEstimate,
    ) -> (r: Option<DetectedAlgorithm>)
        requires
            cpg.wf(),
            recursion is Some <==> recurses(*cpg, function),
            recursion matches Some(p) ==> p.recursive_calls@ == recursive_calls_of(*cpg, function),
            holds(*time_complexity, time_estimate(*cpg, function)),
        ensures
            detection_of(*cpg, function, self.min_confidence_permille, dc_finding(*cpg, function), r),
            r matches Some(d) ==> d.family == AlgorithmFamily::DivideAndConquer,
    {
        reveal(dc_finding);
        let rec = match recursion {
            Some(p) => p,
            None => return None,
        };
        let is_dc_complexity = match time_complexity.class {
            ComplexityClass::Logarithmic | ComplexityClass::Linearithmic => true,
            _ => false,
        };
        if !is_dc_complexity {
            return None;
        }
        let call_count = rec.recursive_calls.len();
        let confidence: u32 = if call_count == 1 { 600 } else if call_count == 2 { 700 } else { 500 };
        self.finish(AlgorithmFamily::DivideAndConquer, function, confidence, None)
    }

    /// Whether a node below `function` shows clue `c` ([`has_clue`]).
    fn has_clue(&self, cpg: &CodePropertyGraph, function: NodeId, c: Clue) -> (r: bool)
        requires
            cpg.wf(),
        ensures
            r == has_clue(*cpg, function, c),
    {
        let descendants = cpg.ast_descendants(function);
        any_clue(cpg, &descendants, c)
    }

    /// Whether `function` swaps ([`has_swap`]).
    fn has_swap_pattern(&self, cpg: &CodePropertyGraph, function: NodeId) -> (r: bool)
        requires
            cpg.wf(),
        ensures
            r == has_swap(*cpg, function),
    {
        let descendants = cpg.ast_descendants(function);
        let ghost p = |k: CpgNodeKind| shows(Clue::Assignment, k);
        let mut assignment_count: usize = 0;
        let mut i: usize = 0;
        while i < descendants.len()
            invariant
                p == (|k: CpgNodeKind| shows(Clue::Assignment, k)),
                i <= descendants@.len(),
                assignment_count == count_nodes(*cpg, descendants@.take(i as int), p),
                assignment_count <= i,
            decreases descendants@.len() - i,
        {
            proof { lemma_count_nodes_step(*cpg, descendants@, i as int, p); }
            if let Some(node) = cpg.node(descendants[i]) {
                if let CpgNodeKind::Assignment { .. } = &node.kind {
                    assignment_count = assignment_count + 1;
                }
            }
            i = i + 1;
        }
        assert(descendants@.take(descendants@.len() as int) =~= descendants@);
        let has_swap_call = any_clue(cpg, &descendants, Clue::Swap);
        assignment_count >= 3 || has_swap_call
    }

    /// Whether an addition of the literal 1 lies below `function`.
    fn has_adjacent_swap_pattern(&self, cpg: &CodePropertyGraph, function: NodeId) -> (r: bool)
        requires
            cpg.wf(),
        ensures
            r == has_next_index(*cpg, function),
    {
        let descendants = cpg.ast_descendants(function);
        let mut i: usize = 0;
        while i < descendants.len()
            invariant
                descendants@ == nodes_below(*cpg, function),
                i <= descendants@.len(),
                forall|t: int| 0 <= t < i ==> !#[trigger] next_index(*cpg, descendants@[t]),
            decreases descendants@.len() - i,
        {
            if adds_one(cpg, descendants[i]) {
                assert(next_index(*cpg, descendants@[i as int]));
                return true;
            }
            i = i + 1;
        }
        false
    }

    /// Whether a return inside a loop lies below `function`.
    fn has_early_return(&self, cpg: &CodePropertyGraph, function: NodeId) -> (r: bool)
        requires
            cpg.wf(),
        ensures
            r == has_early_return(*cpg, function),
    {
        let descendants = cpg.ast_descendants(function);
        let mut i: usize = 0;
        while i < descendants.len()
            invariant
                descendants@ == nodes_below(*cpg, function),
                i <= descendants@.len(),
                forall|t: int| 0 <= t < i ==> !#[trigger] early_return(*cpg, descendants@[t]),
            decreases descendants@.len() - i,
        {
            let id = descendants[i];
            let is_ret = match cpg.node(id) {
                Some(n) => match n.kind {
                    CpgNodeKind::Return => true,
                    _ => false,
                },
                None => false,
            };
            if is_ret {
                let ancestors = cpg.ast_ancestors(id);
                let ghost p = |k: CpgNodeKind| nests_loops(k);
                let mut j: usize = 0;
                while j < ancestors.len()
                    invariant
                        p == (|k: CpgNodeKind| nests_loops(k)),
                        descendants@ == nodes_below(*cpg, function),
                        i < descendants@.len(),
                        id == descendants@[i as int],
                        ancestors@ == ancestor_chain(cpg, id, cpg.nodes_view().len() as nat),
                        is_return(*cpg, id),
                        j <= ancestors@.len(),
                        forall|t: int| 0 <= t < j ==> !(cpg.valid(ancestors@[t]) && #[trigger] p(cpg.at(ancestors@[t]).kind)),
                    decreases ancestors@.len() - j,
                {
                    if let Some(a) = cpg.node(ancestors[j]) {
                        match a.kind {
                            CpgNodeKind::For | CpgNodeKind::While | CpgNodeKind::Loop => {
                                assert(p(cpg.at(ancestors@[j as int]).kind));
                                assert(early_return(*cpg, id));
                                assert(early_return(*cpg, descendants@[i as int]));
                                return true;
                            },
                            _ => {},
                        }
                    }
                    j = j + 1;
                }
            }
            i = i + 1;
        }
        false
    }

    /// Whether a midpoint lies below `function`.
    fn has_midpoint_calculation(&self, cpg: &CodePropertyGraph, function: NodeId) -> (r: bool)
        requires
            cpg.wf(),
        ensures
            r == has_midpoint(*cpg, function),
    {
        let descendants = cpg.ast_descendants(function);
        let mut i: usize = 0;
        while i < descendants.len()
            invariant
                descendants@ == nodes_below(*cpg, function),
                i <= descendants@.len(),
                forall|t: int| 0 <= t < i ==> !#[trigger] midpoint(*cpg, descendants@[t]),
            decreases descendants@.len() - i,
        {
            if is_midpoint(cpg, descendants[i]) {
                assert(midpoint(*cpg, descendants@[i as int]));
                return true;
            }
            i = i + 1;
        }
        false
    }
}

/// Whether a node of `ids` shows clue `c`.
fn any_clue(g: &CodePropertyGraph, ids: &Vec<NodeId>, c: Clue) -> (r: bool)
    ensures
        r == any_node(*g, ids@, |k: CpgNodeKind| shows(c, k)),
{
    let ghost p = |k: CpgNodeKind| shows(c, k);
    let mut i: usize = 0;
    while i < ids.len()
        invariant
            i <= ids@.len(),
            p == (|k: CpgNodeKind| shows(c, k)),
            forall|j: int| 0 <= j < i ==> !(g.valid(ids@[j]) && #[trigger] p(g.at(ids@[j]).kind)),
        decreases ids@.len() - i,
    {
        if let Some(node) = g.node(ids[i]) {
            if shows_clue(&node.kind, c) {
                assert(g.valid(ids@[i as int]) && p(g.at(ids@[i as int]).kind));
                return true;
            }
        }
        i = i + 1;
    }
    false
}

/// Whether a node of kind `k` shows clue `c` ([`shows`]).
fn shows_clue(k: &CpgNodeKind, c: Clue) -> (r: bool)
    ensures
        r == shows(c, *k),
{
    match c {
        Clue::Comparison => match k {
            CpgNodeKind::BinaryOp { operator } => {
                let o = operator.as_str();
                str_eq(o, "<") || str_eq(o, ">") || str_eq(o, "<=") || str_eq(o, ">=") || str_eq(o, "==") || str_eq(o, "!=")
            },
            _ => false,
        },
        Clue::Assignment => match k {
            CpgNodeKind::Assignment { .. } => true,
            _ => false,
        },
        Clue::Index => match k {
            CpgNodeKind::IndexAccess => true,
            _ => false,
        },
        Clue::Swap | Clue::Queue | Clue::Stack => {
            let name: &String = match k {
                CpgNodeKind::Identifier { name, .. } => name,
                CpgNodeKind::MemberAccess { member } => member,
                _ => return false,
            };
            let lower = to_lower(name.as_str());
            let l = lower.as_str();
            match c {
                Clue::Swap => str_contains(l, "swap"),
                Clue::Queue => str_contains(l, "queue") || str_contains(l, "push_back") || str_contains(l, "pop_front")
                    || str_contains(l, "deque") || str_contains(l, "enqueue") || str_contains(l, "dequeue"),
                _ => str_contains(l, "stack") || str_eq(l, "push") || str_eq(l, "pop"),
            }
        },
        Clue::Visited | Clue::Memo => {
            let name: &String = match k {
                CpgNodeKind::Identifier { name, .. } => name,
                _ => return false,
            };
            let lower = to_lower(name.as_str());
            let l = lower.as_str();
            match c {
                Clue::Visited => str_contains(l, "visited") || str_contains(l, "seen") || str_contains(l, "marked"),
                _ => str_contains(l, "memo") || str_contains(l, "dp") || str_contains(l, "cache") || str_contains(l, "table")
                    || str_eq(l, "f") || str_eq(l, "dp_table"),
            }
        },
    }
}

/// Whether a child of `v` is the integer literal `x`.
fn child_is_int(cpg: &CodePropertyGraph, v: NodeId, x: i64) -> (r: bool)
    ensures
        r == exists|i: int| 0 <= i < children_of(*cpg, v).len() && #[trigger] is_int(*cpg, children_of(*cpg, v)[i], x),
{
    let children = cpg.ast_children(v);
    let mut i: usize = 0;
    while i < children.len()
        invariant
            children@ == children_of(*cpg, v),
            i <= children@.len(),
            forall|t: int| 0 <= t < i ==> !#[trigger] is_int(*cpg, children@[t], x),
        decreases children@.len() - i,
    {
        if let Some(child) = cpg.node(children[i]) {
            if let CpgNodeKind::Literal { kind: LiteralKind::Integer(y) } = &child.kind {
                if *y == x {
                    assert(is_int(*cpg, children@[i as int], x));
                    return true;
                }
            }
        }
        i = i + 1;
    }
    false
}

/// Whether `v` adds the literal 1 ([`next_index`]).
fn adds_one(cpg: &CodePropertyGraph, v: NodeId) -> (r: bool)
    ensures
        r == next_index(*cpg, v),
{
    let node = match cpg.node(v) {
        Some(n) => n,
        None => return false,
    };
    match &node.kind {
        CpgNodeKind::BinaryOp { operator } => str_eq(operator.as_str(), "+") && child_is_int(cpg, v, 1),
        _ => false,
    }
}

/// Whether `v` is a midpoint ([`midpoint`]).
fn is_midpoint(cpg: &CodePropertyGraph, v: NodeId) -> (r: bool)
    ensures
        r == midpoint(*cpg, v),
{
    let node = match cpg.node(v) {
        Some(n) => n,
        None => return false,
    };
    match &node.kind {
        CpgNodeKind::BinaryOp { operator } => {
            let o = operator.as_str();
            if !(str_eq(o, "/") || str_eq(o, ">>")) {
                return false;
            }
            let two = child_is_int(cpg, v, 2);
            let one = child_is_int(cpg, v, 1);
            proof {
                let c = children_of(*cpg, v);
                if !two && !one {
                    assert forall|i: int| 0 <= i < c.len() implies !#[trigger] halving_operand(*cpg, c[i]) by {
                        assert(!is_int(*cpg, c[i], 2) && !is_int(*cpg, c[i], 1));
                    }
                }
                if one {
                    let i = choose|i: int| 0 <= i < c.len() && #[trigger] is_int(*cpg, c[i], 1);
                    assert(halving_operand(*cpg, c[i]));
                }
                if two {
                    let i = choose|i: int| 0 <= i < c.len() && #[trigger] is_int(*cpg, c[i], 2);
                    assert(halving_operand(*cpg, c[i]));
                }
            }
            two || one
        },
        CpgNodeKind::Identifier { name, .. } => {
            let lower = to_lower(name.as_str());
            let l = lower.as_str();
            assert(l@ == lowercase_of(name@));
            str_eq(l, "mid") || str_eq(l, "middle")
        },
        _ => false,
    }
}

/// A copy of an estimate.
fn copy_estimate(e: &ComplexityEstimate) -> (r: ComplexityEstimate)
    ensures
        r == *e,
{
    ComplexityEstimate { class: e.class, confidence_permille: e.confidence_permille, justification: e.justification.clone() }
}

/// The signature of `loops` and `recursion` with `time_complexity`.
fn build_signature(loops: &Vec<LoopPattern>, recursion: Option<&RecursionPattern>, time_complexity: ComplexityEstimate) -> (sig: AlgorithmSignature)
    ensures
        sig.time_complexity == Some(time_complexity),
        sig.space_complexity is None,
        loops@.len() == 0 ==> sig.loop_structure is None,
        loops@.len() > 0 ==> (sig.loop_structure matches Some(s) && describes_loops(s, loops@)),
        recursion is None ==> sig.recursion_pattern is None,
        recursion matches Some(r) ==> (sig.recursion_pattern matches Some(p) && describes_recursion(p, *r)),
{
    let mut sig = AlgorithmSignature::new().with_time_complexity(time_complexity);
    if loops.len() > 0 {
        let mut max_d: usize = 0;
        let mut loop_types: Vec<LoopType> = Vec::new();
        let mut i: usize = 0;
        while i < loops.len()
            invariant
                i <= loops@.len(),
                max_d == max_depth(loops@.take(i as int)),
                loop_types@.len() == i,
                forall|t: int| 0 <= t < i ==> describes_loop(#[trigger] loop_types@[t], loops@[t]),
            decreases loops@.len() - i,
        {
            proof {
                assert(loops@.take(i as int + 1).drop_last() =~= loops@.take(i as int));
            }
            let l = loops[i];
            if l.depth > max_d {
                max_d = l.depth;
            }
            let kind = match l.kind {
                LoopKind::For => SigLoopKind::CountedFor,
                LoopKind::While => SigLoopKind::While,
                LoopKind::DoWhile => SigLoopKind::DoWhile,
                LoopKind::Infinite => SigLoopKind::Infinite,
                LoopKind::Iterator => SigLoopKind::ForEach,
            };
            let bounds = if l.is_counted { LoopBounds::LinearN } else { LoopBounds::Unknown };
            loop_types.push(LoopType { header: l.header, kind, depth: l.depth.saturating_sub(1), bounds, has_early_exit: false });
            i = i + 1;
        }
        assert(loops@.take(loops@.len() as int) =~= loops@);
        let loop_structure = LoopStructure { max_depth: max_d, loop_count: loops.len(), loop_types, loops_independent: false };
        sig = sig.with_loop_structure(loop_structure);
    }
    if let Some(r) = recursion {
        let kind = match r.kind {
            RecursionKind::Direct => SigRecursionKind::Direct,
            RecursionKind::Indirect => SigRecursionKind::Indirect,
            RecursionKind::Tail => SigRecursionKind::Tail,
        };
        let pattern = SigRecursionPattern {
            kind,
            base_cases: copy_ids(&r.base_cases),
            recursive_calls: copy_ids(&r.recursive_calls),
            reduction: ReductionPattern::Unknown,
            tail_optimizable: r.kind == RecursionKind::Tail,
        };
        sig = sig.with_recursion(pattern);
    }
    sig
}

/// Inserts `d` after every detection at least as confident, keeping the
/// list in rank order when `d`'s family runs after all of theirs.
fn place(found: &mut Vec<DetectedAlgorithm>, d: DetectedAlgorithm)
    requires
        in_rank_order(old(found)@),
        forall|i: int| 0 <= i < old(found)@.len() ==> family_order((#[trigger] old(found)@[i]).family) < family_order(d.family),
    ensures
        in_rank_order(final(found)@),
        final(found)@.len() == old(found)@.len() + 1,
        forall|x: DetectedAlgorithm| #[trigger] final(found)@.contains(x) <==> (old(found)@.contains(x) || x == d),
{
    let mut k: usize = 0;
    while k < found.len() && found[k].confidence_permille >= d.confidence_permille
        invariant
            found@ == old(found)@,
            k <= found@.len(),
            forall|j: int| 0 <= j < k ==> (#[trigger] found@[j]).confidence_permille >= d.confidence_permille,
        decreases found@.len() - k,
    {
        k = k + 1;
    }
    let ghost before = found@;
    found.insert(k, d);
    proof {
        assert forall|j: int| k <= j < before.len() implies (#[trigger] before[j]).confidence_permille < d.confidence_permille by {
            if j > k {
                assert(ranked_before(finding_of(before[k as int]), finding_of(before[j])));
            }
        }
        assert forall|i: int, j: int| 0 <= i < j < found@.len() implies
            ranked_before(finding_of(#[trigger] found@[i]), finding_of(#[trigger] found@[j])) by {
            if j < k {
                assert(found@[i] == before[i] && found@[j] == before[j]);
            } else if j == k {
                assert(found@[i] == before[i]);
            } else if i == k {
                assert(found@[j] == before[j - 1]);
            } else if i < k {
                assert(found@[i] == before[i] && found@[j] == before[j - 1]);
                assert(ranked_before(finding_of(before[i]), finding_of(before[j - 1])));
            } else {
                assert(found@[i] == before[i - 1] && found@[j] == before[j - 1]);
            }
        }
        assert forall|x: DetectedAlgorithm| #[trigger] found@.contains(x) <==> (before.contains(x) || x == d) by {
            if found@.contains(x) {
                let t = choose|t: int| 0 <= t < found@.len() && found@[t] == x;
                if t < k {
                    assert(before[t] == x);
                } else if t > k {
                    assert(before[t - 1] == x);
                }
            }
            if before.contains(x) {
                let t = choose|t: int| 0 <= t < before.len() && before[t] == x;
                if t < k {
                    assert(found@[t] == x);
                } else {
                    assert(found@[t + 1] == x);
                }
            }
            if x == d {
                assert(found@[k as int] == d);
            }
        }
    }
}

impl AlgorithmDetector for DefaultAlgorithmDetector {
    /// The detections in `function` at the detector's threshold or above:
    /// exactly the findings of [`found`], each with the signature its family
    /// carries, most confident first and, among equally confident ones, in
    /// the order the detectors run (sorting, searching, graph traversal,
    /// dynamic programming, divide and conquer).
    fn detect(&self, cpg: &CodePropertyGraph, function: NodeId) -> (r: Vec<DetectedAlgorithm>)
        ensures
            forall|i: int| 0 <= i < r@.len() ==> #[trigger] reported(*cpg, function, self.min_confidence_permille, r@[i]),
            forall|x: Finding| #[trigger] found(*cpg, function, self.min_confidence_permille, x) ==>
                exists|i: int| 0 <= i < r@.len() && finding_of(r@[i]) == x,
            in_rank_order(r@),
    {
        let ghost g = *cpg;
        let ghost min = self.min_confidence_permille;
        let loops = self.control_flow.detect_loops(cpg, function);
        let recursion = self.control_flow.detect_recursion(cpg, function);
        let time_complexity = self.complexity.estimate_time_complexity(cpg, function);
        proof {
            if recursion is Some {
                assert(recurses(g, function));
            } else {
                assert(!recurses(g, function));
            }
        }
        let mut detections: Vec<DetectedAlgorithm> = Vec::new();
        let sorting = self.detect_sorting(cpg, function, &loops, &time_complexity);
        let searching = self.detect_searching(cpg, function, &loops, &recursion, &time_complexity);
        let graph = self.detect_graph(cpg, function, &loops);
        let dp = self.detect_dp(cpg, function, &loops);
        let dc = self.detect_divide_conquer(cpg, function, &recursion, &time_complexity);
        let ghost (o0, o1, o2, o3, o4) = (sorting, searching, graph, dp, dc);
        let ghost from = |x: DetectedAlgorithm, n: int|
            (n > 0 && o0 == Some(x)) || (n > 1 && o1 == Some(x)) || (n > 2 && o2 == Some(x)) || (n > 3 && o3 == Some(x))
                || (n > 4 && o4 == Some(x));
        if let Some(a) = sorting {
            place(&mut detections, a);
        }
        assert forall|x: DetectedAlgorithm| #[trigger] detections@.contains(x) <==> from(x, 1) by {}
        if let Some(a) = searching {
            proof {
                assert forall|i: int| 0 <= i < detections@.len() implies family_order((#[trigger] detections@[i]).family) < family_order(a.family) by {
                    assert(detections@.contains(detections@[i]));
                }
            }
            place(&mut detections, a);
        }
        assert forall|x: DetectedAlgorithm| #[trigger] detections@.contains(x) <==> from(x, 2) by {}
        if let Some(a) = graph {
            proof {
                assert forall|i: int| 0 <= i < detections@.len() implies family_order((#[trigger] detections@[i]).family) < family_order(a.family) by {
                    assert(detections@.contains(detections@[i]));
                }
            }
            place(&mut detections, a);
        }
        assert forall|x: DetectedAlgorithm| #[trigger] detections@.contains(x) <==> from(x, 3) by {}
        if let Some(a) = dp {
            proof {
                assert forall|i: int| 0 <= i < detections@.len() implies family_order((#[trigger] detections@[i]).family) < family_order(a.family) by {
                    assert(detections@.contains(detections@[i]));
                }
            }
            place(&mut detections, a);
        }
        assert forall|x: DetectedAlgorithm| #[trigger] detections@.contains(x) <==> from(x, 4) by {}
        if let Some(a) = dc {
            proof {
                assert forall|i: int| 0 <= i < detections@.len() implies family_order((#[trigger] detections@[i]).family) < family_order(a.family) by {
                    assert(detections@.contains(detections@[i]));
                }
            }
            place(&mut detections, a);
        }
        assert forall|x: DetectedAlgorithm| #[trigger] detections@.contains(x) <==> from(x, 5) by {}
        proof {
            let r = detections@;
            assert forall|i: int| 0 <= i < r.len() implies #[trigger] reported(g, function, min, r[i]) by {
                assert(r.contains(r[i]));
            }
            assert forall|x: Finding| #[trigger] found(g, function, min, x) implies
                exists|i: int| 0 <= i < r.len() && finding_of(r[i]) == x by {
                let d = if kept(sorting_finding(g, function), min) == Some(x) {
                    o0->0
                } else if kept(searching_finding(g, function), min) == Some(x) {
                    o1->0
                } else if kept(graph_finding(g, function), min) == Some(x) {
                    o2->0
                } else if kept(dp_finding(g, function), min) == Some(x) {
                    o3->0
                } else {
                    o4->0
                };
                assert(from(d, 5));
                assert(r.contains(d));
                let i = choose|i: int| 0 <= i < r.len() && r[i] == d;
                assert(finding_of(r[i]) == x);
            }
        }
        detections
    }

    /// Sorting, searching, graph traversal, dynamic programming, divide and
    /// conquer, and greedy algorithms.
    fn supported_families(&self) -> (r: Vec<AlgorithmFamily>)
        ensures
            r@ == advertised(),
    {
        let mut r: Vec<AlgorithmFamily> = Vec::new();
        r.push(AlgorithmFamily::Sorting);
        r.push(AlgorithmFamily::Searching);
        r.push(AlgorithmFamily::GraphTraversal);
        r.push(AlgorithmFamily::DynamicProgramming);
        r.push(AlgorithmFamily::DivideAndConquer);
        r.push(AlgorithmFamily::Greedy);
        r
    }
}

} // verus!
