//! Loop and recursion structure of a function, read off its syntax tree.

use vstd::prelude::*;
use crate::graph::{ancestor_chain, lemma_select_step, sel_ast_child, select, CodePropertyGraph, CpgNodeKind, NodeId};
use crate::overlay::below_ids;
use crate::reach::{lemma_realises_reaches, lemma_reverse_reaches, reachable, reached_from, reaches, realises, rel_reaches, reverse_adjacency, step};
use crate::text::{lowercase_of, str_contains, str_eq, text_has, to_lower};

verus! {

/// Finds the loops and the recursion of a function.
#[derive(Debug, Clone, Copy)]
pub struct ControlFlowAnalyzer {}

/// The syntax of a loop.
#[derive(Debug, Clone, Copy, PartialEq, Eq, Structural)]
pub enum LoopKind {
    /// A `for` loop.
    For,
    /// A `while` loop.
    While,
    /// A `do ... while` loop.
    DoWhile,
    /// A loop without a condition, left by `break`.
    Infinite,
    /// A loop over an iterator.
    Iterator,
}

/// A loop of a function.
#[derive(Debug, Clone, Copy, PartialEq, Eq, Structural)]
pub struct LoopPattern {
    /// The loop's node.
    pub header: NodeId,
    /// Its syntax.
    pub kind: LoopKind,
    /// One plus the number of loops around it.
    pub depth: usize,
    /// Whether its trip count is bounded by a counter.
    pub is_counted: bool,
}

/// How a function recurses.
#[derive(Debug, Clone, Copy, PartialEq, Eq, Structural)]
pub enum RecursionKind {
    /// The function calls itself.
    Direct,
    /// The function is reached again through other functions.
    Indirect,
    /// A self-call is the value returned.
    Tail,
}

/// The recursion of a function.
#[derive(Debug, Clone)]
pub struct RecursionPattern {
    /// How it recurses.
    pub kind: RecursionKind,
    /// Guarded return nodes that make no recursive call.
    pub base_cases: Vec<NodeId>,
    /// The self-calls, in id order.
    pub recursive_calls: Vec<NodeId>,
}

// ---------------------------------------------------------------------------
// What the analysis reads
// ---------------------------------------------------------------------------

/// The loop syntax of a node kind: `for`, `while`, `loop`, or a kind the
/// grammar names a do-while.
pub open spec fn loop_kind_of(k: CpgNodeKind) -> Option<LoopKind> {
    match k {
        CpgNodeKind::For => Some(LoopKind::For),
        CpgNodeKind::While => Some(LoopKind::While),
        CpgNodeKind::Loop => Some(LoopKind::Infinite),
        CpgNodeKind::Unknown { kind } => if text_has(kind@, "do_while"@) || text_has(kind@, "do_statement"@) {
            Some(LoopKind::DoWhile)
        } else {
            None
        },
        _ => None,
    }
}

/// A loop node that counts towards the depth of the loops inside it.
pub open spec fn nests_loops(k: CpgNodeKind) -> bool {
    k is For || k is While || k is Loop
}

/// Some node of `s` has a kind satisfying `p`.
pub open spec fn any_node(g: CodePropertyGraph, s: Seq<NodeId>, p: spec_fn(CpgNodeKind) -> bool) -> bool {
    exists|i: int| 0 <= i < s.len() && g.valid(s[i]) && #[trigger] p(g.at(s[i]).kind)
}

/// The number of nodes of `s` whose kind satisfies `p`.
pub open spec fn count_nodes(g: CodePropertyGraph, s: Seq<NodeId>, p: spec_fn(CpgNodeKind) -> bool) -> nat
    decreases s.len(),
{
    if s.len() == 0 {
        0
    } else {
        count_nodes(g, s.drop_last(), p) + if g.valid(s.last()) && p(g.at(s.last()).kind) { 1nat } else { 0nat }
    }
}

/// `x` as a `usize`, saturating.
pub open spec fn sat_usize(x: int) -> usize {
    if x >= usize::MAX { usize::MAX } else { x as usize }
}

/// The depth of a loop: one plus the loops among its ancestors.
pub open spec fn loop_depth(g: CodePropertyGraph, v: NodeId) -> usize {
    sat_usize((1 + count_nodes(g, ancestor_chain(&g, v, g.nodes_view().len() as nat), |k: CpgNodeKind| nests_loops(k))) as int)
}

/// A comparison operator.
pub open spec fn is_comparison(k: CpgNodeKind) -> bool {
    match k {
        CpgNodeKind::BinaryOp { operator } => operator@ == "<"@ || operator@ == ">"@ || operator@ == "<="@
            || operator@ == ">="@ || operator@ == "=="@ || operator@ == "!="@,
        _ => false,
    }
}

/// An increment or decrement step.
pub open spec fn is_increment(k: CpgNodeKind) -> bool {
    match k {
        CpgNodeKind::UnaryOp { operator } => operator@ == "++"@ || operator@ == "--"@,
        CpgNodeKind::Assignment { operator } => operator@ == "+="@ || operator@ == "-="@ || operator@ == "*="@ || operator@ == "/="@,
        _ => false,
    }
}

/// Whether a loop of kind `kind` at `v` is counted: a `for` loop always; a
/// `while` or do-while loop when a comparison and an increment lie below it;
/// any other loop never.
pub open spec fn counted(g: CodePropertyGraph, v: NodeId, kind: LoopKind) -> bool {
    match kind {
        LoopKind::For => true,
        LoopKind::While | LoopKind::DoWhile => {
            &&& any_node(g, below_ids(g, v, g.nodes_view().len() as int), |k: CpgNodeKind| is_comparison(k))
            &&& any_node(g, below_ids(g, v, g.nodes_view().len() as int), |k: CpgNodeKind| is_increment(k))
        },
        LoopKind::Infinite | LoopKind::Iterator => false,
    }
}

/// The loop at `v`, if `v` is a loop node.
pub open spec fn loop_at(g: CodePropertyGraph, v: NodeId) -> Option<LoopPattern> {
    if g.valid(v) {
        match loop_kind_of(g.at(v).kind) {
            Some(kind) => Some(LoopPattern { header: v, kind, depth: loop_depth(g, v), is_counted: counted(g, v, kind) }),
            None => None,
        }
    } else {
        None
    }
}

/// The loops below `function`, in id order.
pub open spec fn loops_of(g: CodePropertyGraph, function: NodeId) -> Seq<LoopPattern> {
    below_ids(g, function, g.nodes_view().len() as int).filter_map(|v: NodeId| loop_at(g, v))
}

/// The syntax-tree children of `v`, in edge order.
pub open spec fn children_of(g: CodePropertyGraph, v: NodeId) -> Seq<NodeId> {
    select(g.edges_view(), sel_ast_child(v))
}

/// A kind that names `name`: an identifier or a member access.
pub open spec fn names(k: CpgNodeKind, name: Seq<char>) -> bool {
    match k {
        CpgNodeKind::Identifier { name: n, .. } => n@ == name,
        CpgNodeKind::MemberAccess { member } => member@ == name,
        _ => false,
    }
}

/// `v` is a call with a child naming `name`.
pub open spec fn is_self_call(g: CodePropertyGraph, v: NodeId, name: Seq<char>) -> bool {
    &&& g.valid(v)
    &&& g.at(v).kind is Call
    &&& any_node(g, children_of(g, v), |k: CpgNodeKind| names(k, name))
}

/// `v` is a return.
pub open spec fn is_return(g: CodePropertyGraph, v: NodeId) -> bool {
    g.valid(v) && g.at(v).kind is Return
}

/// The name of `function`, if it is a function node.
pub open spec fn function_name(g: CodePropertyGraph, function: NodeId) -> Option<Seq<char>> {
    if g.valid(function) {
        match g.at(function).kind {
            CpgNodeKind::Function { signature } => Some(signature.name@),
            _ => None,
        }
    } else {
        None
    }
}

/// The self-calls below `function`, in id order.
pub open spec fn self_calls(g: CodePropertyGraph, function: NodeId, name: Seq<char>) -> Seq<NodeId> {
    below_ids(g, function, g.nodes_view().len() as int).filter_map(|v: NodeId| if is_self_call(g, v, name) { Some(v) } else { None })
}

/// The return nodes below `function`, in id order.
pub open spec fn returns_of(g: CodePropertyGraph, function: NodeId) -> Seq<NodeId> {
    below_ids(g, function, g.nodes_view().len() as int).filter_map(|v: NodeId| if is_return(g, v) { Some(v) } else { None })
}

/// The prefix of `s` before the first occurrence of `stop`.
pub open spec fn take_until(s: Seq<NodeId>, stop: NodeId) -> Seq<NodeId>
    decreases s.len(),
{
    if s.len() == 0 || s[0] == stop {
        Seq::empty()
    } else {
        seq![s[0]] + take_until(s.drop_first(), stop)
    }
}

/// An operation that would consume a call's value before it is returned.
pub open spec fn wraps_value(k: CpgNodeKind) -> bool {
    k is BinaryOp || k is UnaryOp || k is Call
}

/// `call` is the value returned by return `ret`: a child of it, or below it
/// with no operation between the two.
pub open spec fn tail_of(g: CodePropertyGraph, call: NodeId, ret: NodeId) -> bool {
    ||| children_of(g, ret).contains(call)
    ||| below_ids(g, ret, g.nodes_view().len() as int).contains(call)
        && !any_node(g, take_until(ancestor_chain(&g, call, g.nodes_view().len() as nat), ret), |k: CpgNodeKind| wraps_value(k))
}

/// `call` is the value returned by one of `rets`.
pub open spec fn is_tail(g: CodePropertyGraph, call: NodeId, rets: Seq<NodeId>) -> bool {
    exists|i: int| 0 <= i < rets.len() && #[trigger] tail_of(g, call, rets[i])
}

/// A branching construct that can guard a base case.
pub open spec fn guards(k: CpgNodeKind) -> bool {
    k is If || k is Match || k is MatchArm
}

/// Return `ret` is a base case: no recursive call lies below it, and a
/// branch lies above it.
pub open spec fn base_case(g: CodePropertyGraph, ret: NodeId, calls: Seq<NodeId>) -> bool {
    &&& !exists|i: int| 0 <= i < below_ids(g, ret, g.nodes_view().len() as int).len()
        && calls.contains(#[trigger] below_ids(g, ret, g.nodes_view().len() as int)[i])
    &&& any_node(g, ancestor_chain(&g, ret, g.nodes_view().len() as nat), |k: CpgNodeKind| guards(k))
}

/// The base cases among `rets`, in order.
pub open spec fn base_cases_of(g: CodePropertyGraph, rets: Seq<NodeId>, calls: Seq<NodeId>) -> Seq<NodeId> {
    rets.filter_map(|r: NodeId| if base_case(g, r, calls) { Some(r) } else { None })
}

/// The recursion kind: tail when some self-call is a returned value.
pub open spec fn recursion_kind(g: CodePropertyGraph, calls: Seq<NodeId>, rets: Seq<NodeId>) -> RecursionKind {
    if exists|i: int| 0 <= i < calls.len() && #[trigger] is_tail(g, calls[i], rets) {
        RecursionKind::Tail
    } else {
        RecursionKind::Direct
    }
}

/// Function node `a` calls function node `b`: a call below `a` names `b`.
pub open spec fn calls_function(g: CodePropertyGraph, a: int, b: int) -> bool {
    &&& 0 <= a < g.nodes_view().len()
    &&& 0 <= b < g.nodes_view().len()
    &&& function_name(g, NodeId(a as u32)) is Some
    &&& function_name(g, NodeId(b as u32)) matches Some(nb) && self_calls(g, NodeId(a as u32), nb).len() > 0
}

/// The call graph between the function nodes of `g`, indexed by node id.
pub open spec fn call_rel(g: CodePropertyGraph) -> spec_fn(int, int) -> bool {
    |a: int, b: int| calls_function(g, a, b)
}

/// Call `c` names function node `h`.
pub open spec fn names_function(g: CodePropertyGraph, c: NodeId, h: int) -> bool {
    &&& 0 <= h < g.nodes_view().len()
    &&& function_name(g, NodeId(h as u32)) matches Some(nh) && is_self_call(g, c, nh)
}

/// Call `c` closes a cycle back to `function`: it names a function from
/// which a chain of calls leads back to `function`.
pub open spec fn closes_cycle(g: CodePropertyGraph, function: NodeId, c: NodeId) -> bool {
    exists|h: int| #[trigger] names_function(g, c, h) && rel_reaches(call_rel(g), g.nodes_view().len() as int, h, function.0 as int)
}

/// The calls below `function` that close a cycle of calls back to it, in id order.
pub open spec fn cycle_calls(g: CodePropertyGraph, function: NodeId) -> Seq<NodeId> {
    below_ids(g, function, g.nodes_view().len() as int).filter_map(|v: NodeId| if closes_cycle(g, function, v) { Some(v) } else { None })
}

/// The recursive calls of `function`: its self-calls, or when it makes none,
/// the calls that close a cycle back to it.
pub open spec fn recursive_calls_of(g: CodePropertyGraph, function: NodeId) -> Seq<NodeId> {
    let direct = self_calls(g, function, function_name(g, function)->0);
    if direct.len() > 0 { direct } else { cycle_calls(g, function) }
}

/// The recursion kind of `function`: tail or direct when it calls itself,
/// indirect when only a cycle through other functions leads back to it.
pub open spec fn recursion_kind_of(g: CodePropertyGraph, function: NodeId) -> RecursionKind {
    let direct = self_calls(g, function, function_name(g, function)->0);
    if direct.len() > 0 { recursion_kind(g, direct, returns_of(g, function)) } else { RecursionKind::Indirect }
}

/// The returns kept by `base_cases_of` are exactly the base cases among them.
proof fn lemma_base_cases_contains(g: CodePropertyGraph, rets: Seq<NodeId>, calls: Seq<NodeId>, r: NodeId)
    ensures
        base_cases_of(g, rets, calls).contains(r) <==> rets.contains(r) && base_case(g, r, calls),
    decreases rets.len(),
{
    let f = |x: NodeId| if base_case(g, x, calls) { Some(x) } else { None };
    if rets.len() > 0 {
        let rest = rets.drop_last();
        lemma_base_cases_contains(g, rest, calls, r);
        let out = base_cases_of(g, rets, calls);
        let pre = base_cases_of(g, rest, calls);
        assert(out == if base_case(g, rets.last(), calls) { pre + seq![rets.last()] } else { pre });
        if out.contains(r) {
            let i = choose|i: int| 0 <= i < out.len() && out[i] == r;
            if i < pre.len() {
                assert(pre.contains(r));
                let j = choose|j: int| 0 <= j < rest.len() && rest[j] == r;
                assert(rets[j] == r);
            } else {
                assert(rets[rets.len() - 1] == r);
            }
        }
        if rets.contains(r) && base_case(g, r, calls) {
            let j = choose|j: int| 0 <= j < rets.len() && rets[j] == r;
            if j < rets.len() - 1 {
                assert(rest[j] == r);
                assert(rest.contains(r));
                let i = choose|i: int| 0 <= i < pre.len() && pre[i] == r;
                assert(out[i] == r);
            } else {
                assert(out[out.len() - 1] == r);
            }
        }
    }
}

/// Which returns are base cases: a return of the function is listed among
/// the base cases of its recursion exactly when no recursive call lies
/// below it and a conditional construct (an `if`, a `match` or a `match`
/// arm) lies above it.
pub proof fn law_base_cases(g: CodePropertyGraph, function: NodeId, r: NodeId)
    ensures
        ({
            let calls = recursive_calls_of(g, function);
            let below = below_ids(g, r, g.nodes_view().len() as int);
            let above = ancestor_chain(&g, r, g.nodes_view().len() as nat);
            base_cases_of(g, returns_of(g, function), calls).contains(r) <==> {
                &&& returns_of(g, function).contains(r)
                &&& forall|i: int| 0 <= i < below.len() ==> !calls.contains(#[trigger] below[i])
                &&& exists|j: int| 0 <= j < above.len() && g.valid(#[trigger] above[j])
                    && (g.at(above[j]).kind is If || g.at(above[j]).kind is Match || g.at(above[j]).kind is MatchArm)
            }
        }),
{
    let calls = recursive_calls_of(g, function);
    let above = ancestor_chain(&g, r, g.nodes_view().len() as nat);
    lemma_base_cases_contains(g, returns_of(g, function), calls, r);
    if exists|j: int| 0 <= j < above.len() && g.valid(#[trigger] above[j])
        && (g.at(above[j]).kind is If || g.at(above[j]).kind is Match || g.at(above[j]).kind is MatchArm) {
        let j = choose|j: int| 0 <= j < above.len() && g.valid(#[trigger] above[j])
            && (g.at(above[j]).kind is If || g.at(above[j]).kind is Match || g.at(above[j]).kind is MatchArm);
        let p = |k: CpgNodeKind| guards(k);
        assert(p(g.at(above[j]).kind));
        assert(any_node(g, above, p));
    }
    if any_node(g, above, |k: CpgNodeKind| guards(k)) {
        let p = |k: CpgNodeKind| guards(k);
        let j = choose|j: int| 0 <= j < above.len() && g.valid(above[j]) && #[trigger] p(g.at(above[j]).kind);
        assert(guards(g.at(above[j]).kind));
    }
}

/// One step of [`Seq::filter_map`] over a growing prefix.
pub proof fn lemma_filter_map_step<A, B>(s: Seq<A>, i: int, f: spec_fn(A) -> Option<B>)
    requires
        0 <= i < s.len(),
    ensures
        s.take(i + 1).filter_map(f) == match f(s[i]) {
            Some(x) => s.take(i).filter_map(f) + seq![x],
            None => s.take(i).filter_map(f),
        },
{
    assert(s.take(i + 1).drop_last() =~= s.take(i));
    assert(s.take(i + 1).last() == s[i]);
}

/// One step of [`count_nodes`] over a growing prefix.
pub proof fn lemma_count_nodes_step(g: CodePropertyGraph, s: Seq<NodeId>, i: int, p: spec_fn(CpgNodeKind) -> bool)
    requires
        0 <= i < s.len(),
    ensures
        count_nodes(g, s.take(i + 1), p) == count_nodes(g, s.take(i), p) + if g.valid(s[i]) && p(g.at(s[i]).kind) { 1nat } else { 0nat },
{
    assert(s.take(i + 1).drop_last() =~= s.take(i));
    assert(s.take(i + 1).last() == s[i]);
}

/// One step of [`take_until`] at position `i`.
proof fn lemma_take_until_step(s: Seq<NodeId>, stop: NodeId, i: int)
    requires
        0 <= i < s.len(),
    ensures
        take_until(s.skip(i), stop) == if s[i] == stop { Seq::empty() } else { seq![s[i]] + take_until(s.skip(i + 1), stop) },
{
    assert(s.skip(i).drop_first() =~= s.skip(i + 1));
    assert(s.skip(i)[0] == s[i]);
}

// ---------------------------------------------------------------------------
// The analysis
// ---------------------------------------------------------------------------

/// Whether some node of `ids` has a kind that `test` accepts; `test` is the
/// executable form of `p`.
fn any_comparison(g: &CodePropertyGraph, ids: &Vec<NodeId>) -> (r: bool)
    ensures
        r == any_node(*g, ids@, |k: CpgNodeKind| is_comparison(k)),
{
    let ghost p = |k: CpgNodeKind| is_comparison(k);
    let mut i: usize = 0;
    while i < ids.len()
        invariant
            i <= ids@.len(),
            p == (|k: CpgNodeKind| is_comparison(k)),
            forall|j: int| 0 <= j < i ==> !(g.valid(ids@[j]) && #[trigger] p(g.at(ids@[j]).kind)),
        decreases ids@.len() - i,
    {
        if let Some(node) = g.node(ids[i]) {
            if ControlFlowAnalyzer::is_comparison_op(&node.kind) {
                assert(p(g.at(ids@[i as int]).kind));
                return true;
            }
        }
        i = i + 1;
    }
    false
}

/// Whether some node of `ids` is an increment step.
fn any_increment(g: &CodePropertyGraph, ids: &Vec<NodeId>) -> (r: bool)
    ensures
        r == any_node(*g, ids@, |k: CpgNodeKind| is_increment(k)),
{
    let ghost p = |k: CpgNodeKind| is_increment(k);
    let mut i: usize = 0;
    while i < ids.len()
        invariant
            i <= ids@.len(),
            p == (|k: CpgNodeKind| is_increment(k)),
            forall|j: int| 0 <= j < i ==> !(g.valid(ids@[j]) && #[trigger] p(g.at(ids@[j]).kind)),
        decreases ids@.len() - i,
    {
        if let Some(node) = g.node(ids[i]) {
            if ControlFlowAnalyzer::is_increment_op(&node.kind) {
                assert(p(g.at(ids@[i as int]).kind));
                return true;
            }
        }
        i = i + 1;
    }
    false
}

impl Default for ControlFlowAnalyzer {
    fn default() -> (r: ControlFlowAnalyzer)
        ensures
            r == (ControlFlowAnalyzer {}),
    {
        ControlFlowAnalyzer {}
    }
}

impl ControlFlowAnalyzer {
    /// An analyzer.
    pub fn new() -> (r: ControlFlowAnalyzer)
        ensures
            r == (ControlFlowAnalyzer {}),
    {
        ControlFlowAnalyzer {}
    }

    /// The loops below `function` in the syntax tree, in id order: each loop
    /// node with its syntax, its nesting depth and whether it is counted
    /// ([`loops_of`]).
    pub fn detect_loops(&self, cpg: &CodePropertyGraph, function: NodeId) -> (r: Vec<LoopPattern>)
        requires
            cpg.wf(),
        ensures
            r@ == loops_of(*cpg, function),
    {
        let descendants = cpg.ast_descendants(function);
        let ghost f = |v: NodeId| loop_at(*cpg, v);
        let mut loops: Vec<LoopPattern> = Vec::new();
        let mut i: usize = 0;
        while i < descendants.len()
            invariant
                cpg.wf(),
                f == (|v: NodeId| loop_at(*cpg, v)),
                descendants@ == below_ids(*cpg, function, cpg.nodes_view().len() as int),
                i <= descendants@.len(),
                loops@ == descendants@.take(i as int).filter_map(f),
            decreases descendants@.len() - i,
        {
            proof { lemma_filter_map_step(descendants@, i as int, f); }
            let node_id = descendants[i];
            match cpg.node(node_id) {
                Some(node) => {
                    let kind = match &node.kind {
                        CpgNodeKind::For => Some(LoopKind::For),
                        CpgNodeKind::While => Some(LoopKind::While),
                        CpgNodeKind::Loop => Some(LoopKind::Infinite),
                        k => if self.is_do_while_pattern(k) { Some(LoopKind::DoWhile) } else { None },
                    };
                    assert(kind == loop_kind_of(cpg.at(node_id).kind));
                    match kind {
                        Some(kind) => {
                            let depth = self.compute_loop_depth(cpg, node_id);
                            let is_counted = self.is_counted_loop(cpg, node_id, &kind);
                            loops.push(LoopPattern { header: node_id, kind, depth, is_counted });
                        },
                        None => {},
                    }
                },
                None => {},
            }
            i = i + 1;
        }
        assert(descendants@.take(descendants@.len() as int) =~= descendants@);
        loops
    }

    /// The recursion of `function`: `None` unless it is a function node that
    /// calls itself by name below it, or makes calls that lead back to it
    /// through other functions. A function that calls itself gets its
    /// self-calls, its guarded rets that make no self-call, and whether a
    /// self-call is returned directly (tail recursion); otherwise the calls
    /// that close a cycle back to it are reported as indirect recursion, with
    /// the guarded rets that make none of them.
    pub fn detect_recursion(&self, cpg: &CodePropertyGraph, function: NodeId) -> (r: Option<RecursionPattern>)
        requires
            cpg.wf(),
        ensures
            r is None <==> (function_name(*cpg, function) is None || recursive_calls_of(*cpg, function).len() == 0),
            r matches Some(p) ==> ({
                let calls = recursive_calls_of(*cpg, function);
                &&& p.recursive_calls@ == calls
                &&& p.base_cases@ == base_cases_of(*cpg, returns_of(*cpg, function), calls)
                &&& p.kind == recursion_kind_of(*cpg, function)
            }),
    {
        let func_node = match cpg.node(function) {
            Some(n) => n,
            None => return None,
        };
        let func_name: &String = match &func_node.kind {
            CpgNodeKind::Function { signature } => &signature.name,
            _ => return None,
        };
        let ghost name = func_name@;
        let n = cpg.node_count();
        let descendants = cpg.ast_descendants(function);
        let ghost fr = |v: NodeId| if is_return(*cpg, v) { Some(v) } else { None };
        let ghost fc = |v: NodeId| if is_self_call(*cpg, v, name) { Some(v) } else { None };
        let mut return_nodes: Vec<NodeId> = Vec::new();
        let mut recursive_calls: Vec<NodeId> = Vec::new();
        let mut i: usize = 0;
        while i < descendants.len()
            invariant
                cpg.wf(),
                name == func_name@,
                fr == (|v: NodeId| if is_return(*cpg, v) { Some(v) } else { None }),
                fc == (|v: NodeId| if is_self_call(*cpg, v, name) { Some(v) } else { None }),
                i <= descendants@.len(),
                return_nodes@ == descendants@.take(i as int).filter_map(fr),
                recursive_calls@ == descendants@.take(i as int).filter_map(fc),
            decreases descendants@.len() - i,
        {
            proof {
                lemma_filter_map_step(descendants@, i as int, fr);
                lemma_filter_map_step(descendants@, i as int, fc);
            }
            let node_id = descendants[i];
            if let Some(node) = cpg.node(node_id) {
                match &node.kind {
                    CpgNodeKind::Return => {
                        return_nodes.push(node_id);
                    },
                    CpgNodeKind::Call { .. } => {
                        if self.is_call_to_function(cpg, node_id, func_name) {
                            recursive_calls.push(node_id);
                        }
                    },
                    _ => {},
                }
            }
            i = i + 1;
        }
        assert(descendants@.take(descendants@.len() as int) =~= descendants@);
        let ghost rets = return_nodes@;
        let ghost calls = recursive_calls@;
        assert(rets == returns_of(*cpg, function));
        assert(calls == self_calls(*cpg, function, name));
        let kind: RecursionKind;
        let chosen: Vec<NodeId>;
        if recursive_calls.len() > 0 {
            let mut is_tail_recursive = false;
            let mut j: usize = 0;
            while j < recursive_calls.len()
                invariant
                    cpg.wf(),
                    calls == recursive_calls@,
                    rets == return_nodes@,
                    j <= calls.len(),
                    is_tail_recursive == exists|t: int| 0 <= t < j && #[trigger] is_tail(*cpg, calls[t], rets),
                decreases calls.len() - j,
            {
                if self.is_tail_call(cpg, recursive_calls[j], &return_nodes) {
                    is_tail_recursive = true;
                }
                j = j + 1;
            }
            kind = if is_tail_recursive { RecursionKind::Tail } else { RecursionKind::Direct };
            chosen = recursive_calls;
        } else {
            let cycle = self.cycle_calls_into(cpg, function);
            if cycle.len() == 0 {
                return None;
            }
            kind = RecursionKind::Indirect;
            chosen = cycle;
        }
        let ghost calls = chosen@;
        let ghost fb = |r: NodeId| if base_case(*cpg, r, calls) { Some(r) } else { None };
        let mut base_cases: Vec<NodeId> = Vec::new();
        let mut k: usize = 0;
        while k < return_nodes.len()
            invariant
                cpg.wf(),
                n == cpg.nodes_view().len(),
                calls == chosen@,
                rets == return_nodes@,
                fb == (|r: NodeId| if base_case(*cpg, r, calls) { Some(r) } else { None }),
                k <= rets.len(),
                base_cases@ == rets.take(k as int).filter_map(fb),
            decreases rets.len() - k,
        {
            proof { lemma_filter_map_step(rets, k as int, fb); }
            let return_id = return_nodes[k];
            if self.is_base_case(cpg, return_id, &chosen) {
                base_cases.push(return_id);
            }
            k = k + 1;
        }
        assert(rets.take(rets.len() as int) =~= rets);
        Some(RecursionPattern { kind, base_cases, recursive_calls: chosen })
    }

    /// The calls below `function` that name function `name`, in id order.
    fn calls_naming(&self, cpg: &CodePropertyGraph, function: NodeId, name: &String) -> (r: Vec<NodeId>)
        requires
            cpg.wf(),
        ensures
            r@ == self_calls(*cpg, function, name@),
    {
        let descendants = cpg.ast_descendants(function);
        let ghost fc = |v: NodeId| if is_self_call(*cpg, v, name@) { Some(v) } else { None };
        let mut found: Vec<NodeId> = Vec::new();
        let mut i: usize = 0;
        while i < descendants.len()
            invariant
                cpg.wf(),
                fc == (|v: NodeId| if is_self_call(*cpg, v, name@) { Some(v) } else { None }),
                i <= descendants@.len(),
                found@ == descendants@.take(i as int).filter_map(fc),
            decreases descendants@.len() - i,
        {
            proof { lemma_filter_map_step(descendants@, i as int, fc); }
            let node_id = descendants[i];
            if let Some(node) = cpg.node(node_id) {
                if let CpgNodeKind::Call { .. } = &node.kind {
                    if self.is_call_to_function(cpg, node_id, name) {
                        found.push(node_id);
                    }
                }
            }
            i = i + 1;
        }
        assert(descendants@.take(descendants@.len() as int) =~= descendants@);
        found
    }

    /// The call graph of `cpg`: for each node, the function nodes it calls
    /// when it is a function node ([`call_rel`]).
    fn call_graph(&self, cpg: &CodePropertyGraph) -> (r: Vec<Vec<usize>>)
        requires
            cpg.wf(),
        ensures
            r@.len() == cpg.nodes_view().len(),
            realises(r@, call_rel(*cpg)),
    {
        let n = cpg.node_count();
        let ghost rel = call_rel(*cpg);
        let mut adj: Vec<Vec<usize>> = Vec::new();
        let mut a: usize = 0;
        while a < n
            invariant
                cpg.wf(),
                n == cpg.nodes_view().len(),
                rel == call_rel(*cpg),
                a <= n,
                adj@.len() == a,
                forall|x: int, k: int| 0 <= x < a && 0 <= k < adj@[x]@.len() ==> (#[trigger] adj@[x]@[k]) < n,
                forall|x: int, y: int| 0 <= x < a && 0 <= y < n ==> (step(adj@, x, y) <==> #[trigger] rel(x, y)),
            decreases n - a,
        {
            let mut row: Vec<usize> = Vec::new();
            let caller = NodeId(a as u32);
            let mut is_function = false;
            if let Some(node) = cpg.node(caller) {
                if let CpgNodeKind::Function { .. } = &node.kind {
                    is_function = true;
                }
            }
            assert(is_function == (function_name(*cpg, caller) is Some));
            if is_function {
                let mut b: usize = 0;
                while b < n
                    invariant
                        cpg.wf(),
                        n == cpg.nodes_view().len(),
                        rel == call_rel(*cpg),
                        a < n,
                        caller == NodeId(a as u32),
                        function_name(*cpg, caller) is Some,
                        b <= n,
                        forall|k: int| 0 <= k < row@.len() ==> (#[trigger] row@[k]) < b,
                        forall|y: int| 0 <= y < n ==> ((exists|k: int| 0 <= k < row@.len() && #[trigger] row@[k] as int == y) <==> (y < b && #[trigger] rel(a as int, y))),
                    decreases n - b,
                {
                    let ghost before = row@;
                    if let Some(callee) = cpg.node(NodeId(b as u32)) {
                        if let CpgNodeKind::Function { signature } = &callee.kind {
                            let found = self.calls_naming(cpg, caller, &signature.name);
                            if found.len() > 0 {
                                row.push(b);
                            }
                        }
                    }
                    proof {
                        assert forall|y: int| 0 <= y < n implies ((exists|k: int| 0 <= k < row@.len() && #[trigger] row@[k] as int == y) <==> (y < b + 1 && #[trigger] rel(a as int, y))) by {
                            if y == b {
                                if rel(a as int, y) {
                                    assert(row@[row@.len() - 1] as int == y);
                                }
                                if exists|k: int| 0 <= k < row@.len() && #[trigger] row@[k] as int == y {
                                    let k = choose|k: int| 0 <= k < row@.len() && #[trigger] row@[k] as int == y;
                                    if k < before.len() {
                                        assert(before[k] < b);
                                    }
                                }
                            } else {
                                if exists|k: int| 0 <= k < row@.len() && #[trigger] row@[k] as int == y {
                                    let k = choose|k: int| 0 <= k < row@.len() && #[trigger] row@[k] as int == y;
                                    assert(k < before.len());
                                    assert(before[k] as int == y);
                                }
                                if y < b && rel(a as int, y) {
                                    let k = choose|k: int| 0 <= k < before.len() && #[trigger] before[k] as int == y;
                                    assert(row@[k] == before[k]);
                                }
                            }
                        }
                    }
                    b = b + 1;
                }
            }
            let ghost prev = adj@;
            adj.push(row);
            proof {
                assert forall|x: int, y: int| 0 <= x < a + 1 && 0 <= y < n implies (step(adj@, x, y) <==> #[trigger] rel(x, y)) by {
                    if x < a {
                        assert(adj@[x] == prev[x]);
                        assert(step(prev, x, y) <==> rel(x, y));
                    } else {
                        assert(adj@[x] == row);
                        assert(caller == NodeId(x as u32));
                        if !is_function {
                            assert(row@.len() == 0);
                            assert(!rel(x, y));
                        } else {
                            assert((exists|k: int| 0 <= k < row@.len() && #[trigger] row@[k] as int == y) <==> rel(x, y));
                        }
                    }
                }
            }
            a = a + 1;
        }
        adj
    }

    /// Whether call `c` names a function marked in `back`.
    fn names_marked(&self, cpg: &CodePropertyGraph, c: NodeId, back: &Vec<bool>) -> (r: bool)
        requires
            cpg.wf(),
            back@.len() == cpg.nodes_view().len(),
        ensures
            r == exists|h: int| #[trigger] names_function(*cpg, c, h) && back@[h],
    {
        match cpg.node(c) {
            Some(node) => {
                match &node.kind {
                    CpgNodeKind::Call { .. } => {},
                    _ => {
                        return false;
                    },
                }
            },
            None => {
                return false;
            },
        }
        let n = cpg.node_count();
        let mut h: usize = 0;
        while h < n
            invariant
                cpg.wf(),
                n == cpg.nodes_view().len(),
                back@.len() == n,
                cpg.valid(c),
                cpg.at(c).kind is Call,
                h <= n,
                forall|x: int| 0 <= x < h ==> !(#[trigger] names_function(*cpg, c, x) && back@[x]),
            decreases n - h,
        {
            if back[h] {
                if let Some(fnode) = cpg.node(NodeId(h as u32)) {
                    if let CpgNodeKind::Function { signature } = &fnode.kind {
                        if self.is_call_to_function(cpg, c, &signature.name) {
                            assert(names_function(*cpg, c, h as int));
                            return true;
                        }
                    }
                }
            }
            h = h + 1;
        }
        false
    }

    /// The calls below `function` that close a cycle of calls back to it
    /// ([`cycle_calls`]).
    fn cycle_calls_into(&self, cpg: &CodePropertyGraph, function: NodeId) -> (r: Vec<NodeId>)
        requires
            cpg.wf(),
            cpg.valid(function),
        ensures
            r@ == cycle_calls(*cpg, function),
    {
        let n = cpg.node_count();
        let ghost rel = call_rel(*cpg);
        let adj = self.call_graph(cpg);
        let radj = reverse_adjacency(&adj);
        let mut starts: Vec<usize> = Vec::new();
        starts.push(function.0 as usize);
        let back = reachable(&radj, &starts);
        let ghost f = function.0 as int;
        proof {
            assert forall|h: int| 0 <= h < n implies (back@[h] <==> rel_reaches(rel, n as int, h, f)) by {
                if back@[h] {
                    let k = choose|k: int| 0 <= k < starts@.len() && #[trigger] reaches(radj@, starts@[k] as int, h);
                    assert(starts@[k] as int == f);
                    lemma_reverse_reaches(adj@, radj@, f, h);
                    lemma_realises_reaches(adj@, rel, h, f);
                }
                if rel_reaches(rel, n as int, h, f) {
                    lemma_realises_reaches(adj@, rel, h, f);
                    lemma_reverse_reaches(radj@, adj@, h, f);
                    assert(starts@[0] as int == f);
                    assert(reached_from(radj@, starts@, h));
                }
            }
        }
        let descendants = cpg.ast_descendants(function);
        let ghost fz = |v: NodeId| if closes_cycle(*cpg, function, v) { Some(v) } else { None };
        let mut found: Vec<NodeId> = Vec::new();
        let mut i: usize = 0;
        while i < descendants.len()
            invariant
                cpg.wf(),
                n == cpg.nodes_view().len(),
                rel == call_rel(*cpg),
                f == function.0 as int,
                back@.len() == n,
                forall|h: int| 0 <= h < n ==> (back@[h] <==> rel_reaches(rel, n as int, h, f)),
                fz == (|v: NodeId| if closes_cycle(*cpg, function, v) { Some(v) } else { None }),
                i <= descendants@.len(),
                found@ == descendants@.take(i as int).filter_map(fz),
            decreases descendants@.len() - i,
        {
            proof { lemma_filter_map_step(descendants@, i as int, fz); }
            let c = descendants[i];
            let closes = self.names_marked(cpg, c, &back);
            proof {
                if closes {
                    let h = choose|h: int| #[trigger] names_function(*cpg, c, h) && back@[h];
                    assert(closes_cycle(*cpg, function, c));
                }
                if closes_cycle(*cpg, function, c) {
                    let h = choose|h: int| #[trigger] names_function(*cpg, c, h) && rel_reaches(call_rel(*cpg), n as int, h, f);
                    assert(back@[h]);
                }
            }
            if closes {
                found.push(c);
            }
            i = i + 1;
        }
        assert(descendants@.take(descendants@.len() as int) =~= descendants@);
        found
    }

    /// Whether return `ret` is a base case: no call of `calls` lies below it
    /// and an `if`, `match` or match arm lies above it.
    fn is_base_case(&self, cpg: &CodePropertyGraph, ret: NodeId, calls: &Vec<NodeId>) -> (r: bool)
        requires
            cpg.wf(),
        ensures
            r == base_case(*cpg, ret, calls@),
    {
        let below = cpg.ast_descendants(ret);
        let mut i: usize = 0;
        while i < below.len()
            invariant
                below@ == below_ids(*cpg, ret, cpg.nodes_view().len() as int),
                i <= below@.len(),
                forall|t: int| 0 <= t < i ==> !calls@.contains(#[trigger] below@[t]),
            decreases below@.len() - i,
        {
            if crate::graph::contains_id(calls, below[i]) {
                return false;
            }
            i = i + 1;
        }
        let ancestors = cpg.ast_ancestors(ret);
        let ghost p = |k: CpgNodeKind| guards(k);
        let mut j: usize = 0;
        while j < ancestors.len()
            invariant
                p == (|k: CpgNodeKind| guards(k)),
                below@ == below_ids(*cpg, ret, cpg.nodes_view().len() as int),
                forall|t: int| 0 <= t < below@.len() ==> !calls@.contains(#[trigger] below@[t]),
                ancestors@ == ancestor_chain(cpg, ret, cpg.nodes_view().len() as nat),
                j <= ancestors@.len(),
                forall|t: int| 0 <= t < j ==> !(cpg.valid(ancestors@[t]) && #[trigger] p(cpg.at(ancestors@[t]).kind)),
            decreases ancestors@.len() - j,
        {
            if let Some(node) = cpg.node(ancestors[j]) {
                match node.kind {
                    CpgNodeKind::If | CpgNodeKind::Match | CpgNodeKind::MatchArm => {
                        assert(p(cpg.at(ancestors@[j as int]).kind));
                        return true;
                    },
                    _ => {},
                }
            }
            j = j + 1;
        }
        false
    }

    /// The depth of the loop at `loop_node`: one plus the `for`, `while` and
    /// `loop` nodes among its ancestors ([`loop_depth`]).
    fn compute_loop_depth(&self, cpg: &CodePropertyGraph, loop_node: NodeId) -> (r: usize)
        ensures
            r == loop_depth(*cpg, loop_node),
    {
        let ancestors = cpg.ast_ancestors(loop_node);
        let ghost p = |k: CpgNodeKind| nests_loops(k);
        let mut depth: usize = 1;
        let mut i: usize = 0;
        while i < ancestors.len()
            invariant
                p == (|k: CpgNodeKind| nests_loops(k)),
                i <= ancestors@.len(),
                depth == sat_usize((1 + count_nodes(*cpg, ancestors@.take(i as int), p)) as int),
            decreases ancestors@.len() - i,
        {
            proof { lemma_count_nodes_step(*cpg, ancestors@, i as int, p); }
            if let Some(node) = cpg.node(ancestors[i]) {
                match node.kind {
                    CpgNodeKind::For | CpgNodeKind::While | CpgNodeKind::Loop => {
                        depth = depth.saturating_add(1);
                    },
                    _ => {},
                }
            }
            i = i + 1;
        }
        assert(ancestors@.take(ancestors@.len() as int) =~= ancestors@);
        depth
    }

    /// Whether the loop at `loop_node` is counted ([`counted`]). A `for`
    /// loop is counted whether or not a range or a counting iterator call is
    /// among its children.
    fn is_counted_loop(&self, cpg: &CodePropertyGraph, loop_node: NodeId, kind: &LoopKind) -> (r: bool)
        requires
            cpg.wf(),
        ensures
            r == counted(*cpg, loop_node, *kind),
    {
        match kind {
            LoopKind::For => {
                let children = cpg.ast_children(loop_node);
                let mut i: usize = 0;
                while i < children.len()
                    invariant
                        *kind == LoopKind::For,
                        i <= children@.len(),
                    decreases children@.len() - i,
                {
                    if let Some(child) = cpg.node(children[i]) {
                        if self.is_range_expression(&child.kind) {
                            return true;
                        }
                        if let CpgNodeKind::Call { .. } = &child.kind {
                            if self.is_counting_iterator_call(cpg, children[i]) {
                                return true;
                            }
                        }
                    }
                    i = i + 1;
                }
                true
            },
            LoopKind::While | LoopKind::DoWhile => {
                let descendants = cpg.ast_descendants(loop_node);
                let has_comparison = any_comparison(cpg, &descendants);
                let has_increment = any_increment(cpg, &descendants);
                has_comparison && has_increment
            },
            LoopKind::Infinite | LoopKind::Iterator => false,
        }
    }

    /// A kind the grammar names a do-while loop.
    fn is_do_while_pattern(&self, kind: &CpgNodeKind) -> (r: bool)
        ensures
            r == (kind is Unknown && (text_has(kind->Unknown_kind@, "do_while"@) || text_has(kind->Unknown_kind@, "do_statement"@))),
    {
        match kind {
            CpgNodeKind::Unknown { kind: k } => str_contains(k.as_str(), "do_while") || str_contains(k.as_str(), "do_statement"),
            _ => false,
        }
    }

    /// A range: an operator containing `..`, or a kind the grammar names a range.
    fn is_range_expression(&self, kind: &CpgNodeKind) -> (r: bool)
        ensures
            r == ((kind matches CpgNodeKind::BinaryOp { operator } && text_has(operator@, ".."@))
                || (kind matches CpgNodeKind::Unknown { kind: k } && text_has(k@, "range"@))),
    {
        match kind {
            CpgNodeKind::BinaryOp { operator } => str_contains(operator.as_str(), ".."),
            CpgNodeKind::Unknown { kind: k } => str_contains(k.as_str(), "range"),
            _ => false,
        }
    }

    /// A call with a child naming an iterator method that counts: its
    /// lower-cased name contains `enumerate`, `range`, `take` or `zip`.
    fn is_counting_iterator_call(&self, cpg: &CodePropertyGraph, call_node: NodeId) -> (r: bool)
        ensures
            r == exists|i: int| 0 <= i < children_of(*cpg, call_node).len() && #[trigger] counting_name(*cpg, children_of(*cpg, call_node)[i]),
    {
        let children = cpg.ast_children(call_node);
        let mut i: usize = 0;
        while i < children.len()
            invariant
                children@ == children_of(*cpg, call_node),
                i <= children@.len(),
                forall|t: int| 0 <= t < i ==> !#[trigger] counting_name(*cpg, children@[t]),
            decreases children@.len() - i,
        {
            if let Some(child) = cpg.node(children[i]) {
                let name: Option<&String> = match &child.kind {
                    CpgNodeKind::Identifier { name, .. } => Some(name),
                    CpgNodeKind::MemberAccess { member } => Some(member),
                    _ => None,
                };
                if let Some(name) = name {
                    let lower = to_lower(name.as_str());
                    if str_contains(lower.as_str(), "enumerate") || str_contains(lower.as_str(), "range")
                        || str_contains(lower.as_str(), "take") || str_contains(lower.as_str(), "zip") {
                        assert(counting_name(*cpg, children@[i as int]));
                        return true;
                    }
                }
            }
            i = i + 1;
        }
        false
    }

    /// A comparison operator ([`is_comparison`]).
    fn is_comparison_op(kind: &CpgNodeKind) -> (r: bool)
        ensures
            r == is_comparison(*kind),
    {
        match kind {
            CpgNodeKind::BinaryOp { operator } => {
                let op = operator.as_str();
                str_eq(op, "<") || str_eq(op, ">") || str_eq(op, "<=") || str_eq(op, ">=") || str_eq(op, "==") || str_eq(op, "!=")
            },
            _ => false,
        }
    }

    /// An increment or decrement step ([`is_increment`]).
    fn is_increment_op(kind: &CpgNodeKind) -> (r: bool)
        ensures
            r == is_increment(*kind),
    {
        match kind {
            CpgNodeKind::UnaryOp { operator } => {
                let op = operator.as_str();
                str_eq(op, "++") || str_eq(op, "--")
            },
            CpgNodeKind::Assignment { operator } => {
                let op = operator.as_str();
                str_eq(op, "+=") || str_eq(op, "-=") || str_eq(op, "*=") || str_eq(op, "/=")
            },
            _ => false,
        }
    }

    /// Whether call `call_node` has a child naming `target_name`.
    fn is_call_to_function(&self, cpg: &CodePropertyGraph, call_node: NodeId, target_name: &String) -> (r: bool)
        requires
            cpg.valid(call_node),
            cpg.at(call_node).kind is Call,
        ensures
            r == is_self_call(*cpg, call_node, target_name@),
    {
        let children = cpg.ast_children(call_node);
        let ghost p = |k: CpgNodeKind| names(k, target_name@);
        let mut i: usize = 0;
        while i < children.len()
            invariant
                cpg.valid(call_node),
                cpg.at(call_node).kind is Call,
                children@ == children_of(*cpg, call_node),
                p == (|k: CpgNodeKind| names(k, target_name@)),
                i <= children@.len(),
                forall|t: int| 0 <= t < i ==> !(cpg.valid(children@[t]) && #[trigger] p(cpg.at(children@[t]).kind)),
            decreases children@.len() - i,
        {
            if let Some(child) = cpg.node(children[i]) {
                let hit = match &child.kind {
                    CpgNodeKind::Identifier { name, .. } => str_eq(name.as_str(), target_name.as_str()),
                    CpgNodeKind::MemberAccess { member } => str_eq(member.as_str(), target_name.as_str()),
                    _ => false,
                };
                if hit {
                    assert(p(cpg.at(children@[i as int]).kind));
                    return true;
                }
            }
            i = i + 1;
        }
        false
    }

    /// Whether `call_node` is the value returned by one of `return_nodes`
    /// ([`is_tail`]).
    fn is_tail_call(&self, cpg: &CodePropertyGraph, call_node: NodeId, return_nodes: &Vec<NodeId>) -> (r: bool)
        requires
            cpg.wf(),
        ensures
            r == is_tail(*cpg, call_node, return_nodes@),
    {
        let mut i: usize = 0;
        while i < return_nodes.len()
            invariant
                cpg.wf(),
                i <= return_nodes@.len(),
                forall|t: int| 0 <= t < i ==> !#[trigger] tail_of(*cpg, call_node, return_nodes@[t]),
            decreases return_nodes@.len() - i,
        {
            if self.returns_value(cpg, call_node, return_nodes[i]) {
                return true;
            }
            i = i + 1;
        }
        false
    }

    /// Whether `call_node` is the value returned by `return_id` ([`tail_of`]).
    fn returns_value(&self, cpg: &CodePropertyGraph, call_node: NodeId, return_id: NodeId) -> (r: bool)
        requires
            cpg.wf(),
        ensures
            r == tail_of(*cpg, call_node, return_id),
    {
        let return_children = cpg.ast_children(return_id);
        if crate::graph::contains_id(&return_children, call_node) {
            return true;
        }
        let return_descendants = cpg.ast_descendants(return_id);
        if !crate::graph::contains_id(&return_descendants, call_node) {
            return false;
        }
        let ancestors = cpg.ast_ancestors(call_node);
        let ghost p = |k: CpgNodeKind| wraps_value(k);
        let ghost whole = take_until(ancestors@, return_id);
        assert(ancestors@.skip(0) =~= ancestors@);
        let mut has_wrapping_op = false;
        let mut i: usize = 0;
        while i < ancestors.len() && ancestors[i] != return_id
            invariant
                p == (|k: CpgNodeKind| wraps_value(k)),
                i <= ancestors@.len(),
                whole == ancestors@.take(i as int) + take_until(ancestors@.skip(i as int), return_id),
                has_wrapping_op == any_node(*cpg, ancestors@.take(i as int), p),
            decreases ancestors@.len() - i,
        {
            proof {
                lemma_take_until_step(ancestors@, return_id, i as int);
                assert(ancestors@.take(i as int + 1) =~= ancestors@.take(i as int) + seq![ancestors@[i as int]]);
            }
            if let Some(node) = cpg.node(ancestors[i]) {
                match node.kind {
                    CpgNodeKind::BinaryOp { .. } | CpgNodeKind::UnaryOp { .. } | CpgNodeKind::Call { .. } => {
                        has_wrapping_op = true;
                    },
                    _ => {},
                }
            }
            proof {
                let t = ancestors@.take(i as int + 1);
                if has_wrapping_op {
                    if !any_node(*cpg, ancestors@.take(i as int), p) {
                        assert(t[i as int] == ancestors@[i as int]);
                        assert(p(cpg.at(t[i as int]).kind));
                    } else {
                        let w = choose|w: int| 0 <= w < i && cpg.valid(ancestors@.take(i as int)[w]) && #[trigger] p(cpg.at(ancestors@.take(i as int)[w]).kind);
                        assert(t[w] == ancestors@.take(i as int)[w]);
                    }
                } else {
                    assert forall|w: int| 0 <= w < t.len() implies !(cpg.valid(t[w]) && #[trigger] p(cpg.at(t[w]).kind)) by {
                        if w < i {
                            assert(t[w] == ancestors@.take(i as int)[w]);
                        }
                    }
                }
            }
            i = i + 1;
        }
        proof {
            if i < ancestors@.len() {
                lemma_take_until_step(ancestors@, return_id, i as int);
            } else {
                assert(ancestors@.skip(i as int).len() == 0);
            }
            assert(whole =~= ancestors@.take(i as int));
        }
        !has_wrapping_op
    }
}

/// A child naming an iterator method that counts.
pub open spec fn counting_name(g: CodePropertyGraph, v: NodeId) -> bool {
    &&& g.valid(v)
    &&& match g.at(v).kind {
        CpgNodeKind::Identifier { name, .. } => counting_word(lowercase_of(name@)),
        CpgNodeKind::MemberAccess { member } => counting_word(lowercase_of(member@)),
        _ => false,
    }
}

/// A lower-cased name of a counting iterator method.
pub open spec fn counting_word(s: Seq<char>) -> bool {
    text_has(s, "enumerate"@) || text_has(s, "range"@) || text_has(s, "take"@) || text_has(s, "zip"@)
}

} // verus!
