//! The discrete side of message passing over a graph: the feature slot each
//! node kind seeds, and the nodes whose embeddings reach a node in one round
//! (its syntax-tree children and parent, and its control-flow and data-flow
//! neighbours in both directions).

use vstd::prelude::*;
use crate::graph::{
    parent_of, sel_ast_child, sel_cfg_pred, sel_cfg_succ, sel_dfg_pred, sel_dfg_succ, select, CodePropertyGraph,
    CpgNodeKind, NodeId,
};

verus! {

/// Number of feature slots, one per node category.
pub const FEATURE_SLOTS: usize = 16;

/// The feature slot a node kind seeds: declarations, control structures,
/// jumps, calls, operators, assignments, names, literals, blocks, parameters
/// and exception handling each have one; everything else shares the last.
pub open spec fn slot_of(k: CpgNodeKind) -> usize {
    match k {
        CpgNodeKind::Root => 0,
        CpgNodeKind::Module { .. } => 1,
        CpgNodeKind::Class { .. } | CpgNodeKind::Struct { .. } => 2,
        CpgNodeKind::Function { .. } => 3,
        CpgNodeKind::Variable { .. } | CpgNodeKind::Field { .. } => 4,
        CpgNodeKind::If | CpgNodeKind::While | CpgNodeKind::For | CpgNodeKind::Loop => 5,
        CpgNodeKind::Return | CpgNodeKind::Break | CpgNodeKind::Continue => 6,
        CpgNodeKind::Call { .. } => 7,
        CpgNodeKind::BinaryOp { .. } | CpgNodeKind::UnaryOp { .. } => 8,
        CpgNodeKind::Assignment { .. } => 9,
        CpgNodeKind::Identifier { .. } => 10,
        CpgNodeKind::Literal { .. } => 11,
        CpgNodeKind::Block { .. } => 12,
        CpgNodeKind::Parameter { .. } => 13,
        CpgNodeKind::Try | CpgNodeKind::Catch | CpgNodeKind::Throw => 14,
        _ => 15,
    }
}

/// The feature slot of `kind` ([`slot_of`]).
pub fn feature_slot(kind: &CpgNodeKind) -> (r: usize)
    ensures
        r == slot_of(*kind),
        r < FEATURE_SLOTS,
{
    match kind {
        CpgNodeKind::Root => 0,
        CpgNodeKind::Module { .. } => 1,
        CpgNodeKind::Class { .. } | CpgNodeKind::Struct { .. } => 2,
        CpgNodeKind::Function { .. } => 3,
        CpgNodeKind::Variable { .. } | CpgNodeKind::Field { .. } => 4,
        CpgNodeKind::If | CpgNodeKind::While | CpgNodeKind::For | CpgNodeKind::Loop => 5,
        CpgNodeKind::Return | CpgNodeKind::Break | CpgNodeKind::Continue => 6,
        CpgNodeKind::Call { .. } => 7,
        CpgNodeKind::BinaryOp { .. } | CpgNodeKind::UnaryOp { .. } => 8,
        CpgNodeKind::Assignment { .. } => 9,
        CpgNodeKind::Identifier { .. } => 10,
        CpgNodeKind::Literal { .. } => 11,
        CpgNodeKind::Block { .. } => 12,
        CpgNodeKind::Parameter { .. } => 13,
        CpgNodeKind::Try | CpgNodeKind::Catch | CpgNodeKind::Throw => 14,
        _ => 15,
    }
}

/// The first components of a sequence of pairs.
pub open spec fn firsts<K>(s: Seq<(NodeId, K)>) -> Seq<NodeId> {
    s.map_values(|e: (NodeId, K)| e.0)
}

/// The nodes whose embeddings reach `v` in one round of message passing, in
/// order and with repetition: its syntax-tree children, its parent, then its
/// control-flow successors and predecessors, then its data-flow successors
/// and predecessors.
pub open spec fn message_sources_of(g: CodePropertyGraph, v: NodeId) -> Seq<NodeId> {
    let edges = g.edges_view();
    select(edges, sel_ast_child(v))
        + match parent_of(&g, v) {
            Some(p) => seq![p],
            None => Seq::empty(),
        }
        + firsts(select(edges, sel_cfg_succ(v)))
        + firsts(select(edges, sel_cfg_pred(v)))
        + firsts(select(edges, sel_dfg_succ(v)))
        + firsts(select(edges, sel_dfg_pred(v)))
}

/// Appends the first components of `s` to `r`.
fn append_firsts<K>(r: &mut Vec<NodeId>, s: &Vec<(NodeId, K)>)
    ensures
        final(r)@ == old(r)@ + firsts(s@),
{
    let ghost start = r@;
    let mut i: usize = 0;
    while i < s.len()
        invariant
            i <= s@.len(),
            r@ == start + firsts(s@.take(i as int)),
        decreases s@.len() - i,
    {
        r.push(s[i].0);
        proof {
            assert(firsts(s@.take(i as int + 1)) =~= firsts(s@.take(i as int)).push(s@[i as int].0));
        }
        i = i + 1;
    }
    assert(s@.take(s@.len() as int) =~= s@);
}

/// The nodes whose embeddings reach `v` in one round ([`message_sources_of`]).
pub fn message_sources(g: &CodePropertyGraph, v: NodeId) -> (r: Vec<NodeId>)
    ensures
        r@ == message_sources_of(*g, v),
{
    let mut r = g.ast_children(v);
    if let Some(p) = g.ast_parent(v) {
        r.push(p);
    }
    let ghost upto_parent = r@;
    append_firsts(&mut r, &g.cfg_successors(v));
    append_firsts(&mut r, &g.cfg_predecessors(v));
    append_firsts(&mut r, &g.dfg_successors(v));
    append_firsts(&mut r, &g.dfg_predecessors(v));
    proof {
        let edges = g.edges_view();
        let par: Seq<NodeId> = match parent_of(g, v) {
            Some(p) => seq![p],
            None => Seq::empty(),
        };
        assert(upto_parent =~= select(edges, sel_ast_child(v)) + par);
    }
    r
}

/// How node embeddings are pooled into a subgraph embedding.
#[derive(Debug, Clone, Copy, PartialEq, Eq, Structural)]
pub enum AggregationMethod {
    /// The mean.
    Mean,
    /// The sum.
    Sum,
    /// The element-wise maximum.
    Max,
    /// An attention-weighted mean.
    Attention,
    /// Pooling along the syntax tree.
    Hierarchical,
}

impl Default for AggregationMethod {
    /// The mean.
    fn default() -> (r: AggregationMethod)
        ensures
            r == AggregationMethod::Mean,
    {
        AggregationMethod::Mean
    }
}

} // verus!
