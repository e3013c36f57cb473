//! Projections of the graph onto one edge overlay, as adjacency lists, and
//! the reachability questions asked of them.

use vstd::prelude::*;
use crate::graph::{lemma_select_member, sel_ast_child, CfgEdgeKind, CodePropertyGraph, CpgEdge, CpgEdgeKind, NodeId};
use crate::reach::{adj_ok, lemma_realises_reaches, reachable, reached_from, reaches, realises, rel_reaches, step};

verus! {

/// Which edges a projection keeps, and in which direction.
#[derive(Clone, Copy, PartialEq, Eq, Structural, Debug)]
pub enum Overlay {
    /// Syntax-tree parent-to-child edges.
    Ast,
    /// All control-flow edges.
    ControlFlow,
    /// Control-flow edges other than calls into a callee.
    IntraControlFlow,
    /// Program-dependence edges, from influence to influenced.
    Dependence,
    /// Program-dependence edges, reversed.
    DependenceReversed,
    /// Call edges: call-site-to-callee edges and control-flow call edges.
    Calls,
}

/// The vertex pair an edge contributes to an overlay, if any.
pub open spec fn picks(o: Overlay, e: CpgEdge) -> Option<(int, int)> {
    match o {
        Overlay::Ast => if e.kind == CpgEdgeKind::AstChild { Some((e.source.0 as int, e.target.0 as int)) } else { None },
        Overlay::ControlFlow => if e.kind is ControlFlow { Some((e.source.0 as int, e.target.0 as int)) } else { None },
        Overlay::IntraControlFlow => if e.kind is ControlFlow && e.kind != CpgEdgeKind::ControlFlow(CfgEdgeKind::Call) {
            Some((e.source.0 as int, e.target.0 as int))
        } else {
            None
        },
        Overlay::Dependence => if e.kind.spec_is_pdg() { Some((e.source.0 as int, e.target.0 as int)) } else { None },
        Overlay::DependenceReversed => if e.kind.spec_is_pdg() { Some((e.target.0 as int, e.source.0 as int)) } else { None },
        Overlay::Calls => if e.kind.spec_is_call() || e.kind == CpgEdgeKind::ControlFlow(CfgEdgeKind::Call) {
            Some((e.source.0 as int, e.target.0 as int))
        } else {
            None
        },
    }
}

/// The overlay's edge relation on node indices.
pub open spec fn overlay_rel(g: CodePropertyGraph, o: Overlay) -> spec_fn(int, int) -> bool {
    |a: int, b: int| exists|k: int| 0 <= k < g.edges_view().len() && #[trigger] picks(o, g.edges_view()[k]) == Some((a, b))
}

/// There is a walk from `a` to `b` along the overlay's edges.
pub open spec fn overlay_reaches(g: CodePropertyGraph, o: Overlay, a: NodeId, b: NodeId) -> bool {
    rel_reaches(overlay_rel(g, o), g.nodes_view().len() as int, a.0 as int, b.0 as int)
}

fn picks_exec(o: Overlay, e: CpgEdge) -> (r: Option<(usize, usize)>)
    ensures
        r matches Some((a, b)) ==> picks(o, e) == Some((a as int, b as int)),
        r is None ==> picks(o, e) is None,
{
    let s = e.source.0 as usize;
    let t = e.target.0 as usize;
    match o {
        Overlay::Ast => if e.kind == CpgEdgeKind::AstChild { Some((s, t)) } else { None },
        Overlay::ControlFlow => if e.kind.is_cfg() { Some((s, t)) } else { None },
        Overlay::IntraControlFlow => if e.kind.is_cfg() && e.kind != CpgEdgeKind::ControlFlow(CfgEdgeKind::Call) { Some((s, t)) } else { None },
        Overlay::Dependence => if e.kind.is_pdg() { Some((s, t)) } else { None },
        Overlay::DependenceReversed => if e.kind.is_pdg() { Some((t, s)) } else { None },
        Overlay::Calls => if e.kind.is_call() || e.kind == CpgEdgeKind::ControlFlow(CfgEdgeKind::Call) { Some((s, t)) } else { None },
    }
}

/// Adjacency lists of one overlay, indexed by node id.
pub fn overlay_adjacency(g: &CodePropertyGraph, o: Overlay) -> (r: Vec<Vec<usize>>)
    requires
        g.wf(),
    ensures
        r@.len() == g.nodes_view().len(),
        realises(r@, overlay_rel(*g, o)),
{
    let n = g.node_count();
    let mut adj: Vec<Vec<usize>> = Vec::new();
    let mut i: usize = 0;
    while i < n
        invariant
            n == g.nodes_view().len(),
            i <= n,
            adj@.len() == i,
            forall|j: int| 0 <= j < i ==> (#[trigger] adj@[j])@.len() == 0,
        decreases n - i,
    {
        adj.push(Vec::new());
        i = i + 1;
    }
    let edges = g.edges();
    let mut k: usize = 0;
    while k < edges.len()
        invariant
            g.wf(),
            edges@ == g.edges_view(),
            n == g.nodes_view().len(),
            adj@.len() == n,
            k <= edges@.len(),
            adj_ok(adj@),
            forall|a: int, b: int| 0 <= a < n && 0 <= b < n ==> (step(adj@, a, b) <==>
                exists|j: int| 0 <= j < k && #[trigger] picks(o, edges@[j]) == Some((a, b))),
        decreases edges@.len() - k,
    {
        let e = edges[k];
        proof {
            assert(g.valid(g.edges_view()[k as int].source));
        }
        match picks_exec(o, e) {
            Some((a, b)) => {
                let ghost prev = adj@;
                let mut row: Vec<usize> = Vec::new();
                adj.set_and_swap(a, &mut row);
                row.push(b);
                adj.set_and_swap(a, &mut row);
                proof {
                    assert(adj@[a as int]@ == prev[a as int]@.push(b));
                    assert forall|x: int, y: int| 0 <= x < adj@.len() && 0 <= y < adj@[x]@.len() implies (#[trigger] adj@[x]@[y]) < adj@.len() by {
                        if x != a || y < prev[a as int]@.len() {
                            assert(prev[x]@[y] == adj@[x]@[y]);
                        }
                    }
                    assert forall|x: int, y: int| 0 <= x < n && 0 <= y < n implies (step(adj@, x, y) <==>
                        exists|j: int| 0 <= j < k + 1 && #[trigger] picks(o, edges@[j]) == Some((x, y))) by {
                        if x == a && y == b {
                            assert(adj@[x]@[prev[x]@.len() as int] as int == y);
                            assert(picks(o, edges@[k as int]) == Some((x, y)));
                        } else if step(adj@, x, y) {
                            let t = choose|t: int| 0 <= t < adj@[x]@.len() && adj@[x]@[t] as int == y;
                            if x == a {
                                assert(t < prev[x]@.len());
                                assert(prev[x]@[t] == adj@[x]@[t]);
                            }
                            assert(step(prev, x, y));
                        } else {
                            if step(prev, x, y) {
                                let t = choose|t: int| 0 <= t < prev[x]@.len() && prev[x]@[t] as int == y;
                                assert(adj@[x]@[t] == prev[x]@[t]);
                            }
                            if exists|j: int| 0 <= j < k + 1 && #[trigger] picks(o, edges@[j]) == Some((x, y)) {
                                let j = choose|j: int| 0 <= j < k + 1 && #[trigger] picks(o, edges@[j]) == Some((x, y));
                                assert(j < k);
                            }
                        }
                    }
                }
            },
            None => {
                proof {
                    assert forall|x: int, y: int| 0 <= x < n && 0 <= y < n implies (step(adj@, x, y) <==>
                        exists|j: int| 0 <= j < k + 1 && #[trigger] picks(o, edges@[j]) == Some((x, y))) by {
                        if exists|j: int| 0 <= j < k + 1 && #[trigger] picks(o, edges@[j]) == Some((x, y)) {
                            let j = choose|j: int| 0 <= j < k + 1 && #[trigger] picks(o, edges@[j]) == Some((x, y));
                            assert(j < k);
                        }
                    }
                }
            },
        }
        k = k + 1;
    }
    proof {
        assert forall|a: int, b: int| 0 <= a < adj@.len() && 0 <= b < adj@.len() implies (step(adj@, a, b) <==> #[trigger] overlay_rel(*g, o)(a, b)) by {
            if step(adj@, a, b) {
                let j = choose|j: int| 0 <= j < k && #[trigger] picks(o, edges@[j]) == Some((a, b));
                assert(picks(o, g.edges_view()[j]) == Some((a, b)));
            }
            if overlay_rel(*g, o)(a, b) {
                let j = choose|j: int| 0 <= j < g.edges_view().len() && #[trigger] picks(o, g.edges_view()[j]) == Some((a, b));
                assert(picks(o, edges@[j]) == Some((a, b)));
            }
        }
    }
    adj
}

/// Some node of `starts` reaches `v` along the overlay.
pub open spec fn overlay_reached(g: CodePropertyGraph, o: Overlay, starts: Seq<NodeId>, v: NodeId) -> bool {
    exists|k: int| 0 <= k < starts.len() && #[trigger] overlay_reaches(g, o, starts[k], v)
}

/// `v` lies at the end of a walk of at least one overlay edge from `u`.
pub open spec fn overlay_below(g: CodePropertyGraph, o: Overlay, u: NodeId, v: NodeId) -> bool {
    exists|c: int| #[trigger] overlay_rel(g, o)(u.0 as int, c) && rel_reaches(overlay_rel(g, o), g.nodes_view().len() as int, c, v.0 as int)
}

/// Marks the nodes reachable along the overlay from some node of `starts`.
pub fn reached_nodes(g: &CodePropertyGraph, o: Overlay, starts: &Vec<NodeId>) -> (r: Vec<bool>)
    requires
        g.wf(),
        forall|k: int| 0 <= k < starts@.len() ==> g.valid(#[trigger] starts@[k]),
    ensures
        r@.len() == g.nodes_view().len(),
        forall|v: int| 0 <= v < r@.len() ==> (r@[v] <==> overlay_reached(*g, o, starts@, NodeId(v as u32))),
{
    let adj = overlay_adjacency(g, o);
    let mut idx: Vec<usize> = Vec::new();
    let mut i: usize = 0;
    while i < starts.len()
        invariant
            g.wf(),
            forall|k: int| 0 <= k < starts@.len() ==> g.valid(#[trigger] starts@[k]),
            i <= starts@.len(),
            idx@.len() == i,
            forall|k: int| 0 <= k < i ==> (#[trigger] idx@[k]) as int == starts@[k].0 as int,
        decreases starts@.len() - i,
    {
        idx.push(starts[i].0 as usize);
        i = i + 1;
    }
    let seen = reachable(&adj, &idx);
    proof {
        assert forall|v: int| 0 <= v < seen@.len() implies (seen@[v] <==> overlay_reached(*g, o, starts@, NodeId(v as u32))) by {
            assert(NodeId(v as u32).0 as int == v);
            if seen@[v] {
                let k = choose|k: int| 0 <= k < idx@.len() && #[trigger] reaches(adj@, idx@[k] as int, v);
                lemma_realises_reaches(adj@, overlay_rel(*g, o), idx@[k] as int, v);
                assert(overlay_reaches(*g, o, starts@[k], NodeId(v as u32)));
            }
            if overlay_reached(*g, o, starts@, NodeId(v as u32)) {
                let k = choose|k: int| 0 <= k < starts@.len() && #[trigger] overlay_reaches(*g, o, starts@[k], NodeId(v as u32));
                lemma_realises_reaches(adj@, overlay_rel(*g, o), idx@[k] as int, v);
                assert(reaches(adj@, idx@[k] as int, v));
            }
        }
    }
    seen
}

/// The ids below `n` of the nodes under `id` in the syntax tree, `id` itself
/// excluded, in id order.
pub open spec fn below_ids(g: CodePropertyGraph, id: NodeId, n: int) -> Seq<NodeId>
    decreases n,
{
    if n <= 0 {
        Seq::empty()
    } else {
        below_ids(g, id, n - 1) + if NodeId((n - 1) as u32) != id && overlay_below(g, Overlay::Ast, id, NodeId((n - 1) as u32)) {
            seq![NodeId((n - 1) as u32)]
        } else {
            Seq::empty()
        }
    }
}

impl CodePropertyGraph {
    /// Nodes below `id` in the syntax tree: reachable over one or more child
    /// edges, `id` itself excluded, in id order.
    pub fn ast_descendants(&self, id: NodeId) -> (r: Vec<NodeId>)
        requires
            self.wf(),
        ensures
            r@ == below_ids(*self, id, self.nodes_view().len() as int),
            forall|k: int| 0 <= k < r@.len() ==> self.valid(#[trigger] r@[k]),
            forall|v: NodeId| self.valid(v) ==> (r@.contains(v) <==> v != id && overlay_below(*self, Overlay::Ast, id, v)),
            forall|a: int, b: int| 0 <= a < b < r@.len() ==> r@[a].0 < r@[b].0,
    {
        let children = if (id.0 as usize) < self.node_count() { self.ast_children(id) } else { Vec::new() };
        proof {
            assert forall|k: int| 0 <= k < children@.len() implies self.valid(#[trigger] children@[k]) by {
                lemma_select_member(self.edges_view(), sel_ast_child(id), children@[k]);
                let j = choose|j: int| 0 <= j < self.edges_view().len() && sel_ast_child(id)(self.edges_view()[j]) == Some(children@[k]);
                assert(self.valid(self.edges_view()[j].target));
            }
        }
        let seen = reached_nodes(self, Overlay::Ast, &children);
        proof {
            assert forall|w: NodeId| self.valid(w) implies (seen@[w.0 as int] <==> overlay_below(*self, Overlay::Ast, id, w)) by {
                assert(NodeId(w.0 as int as u32) == w);
                let rel = overlay_rel(*self, Overlay::Ast);
                if seen@[w.0 as int] {
                    let k = choose|k: int| 0 <= k < children@.len() && #[trigger] overlay_reaches(*self, Overlay::Ast, children@[k], w);
                    lemma_select_member(self.edges_view(), sel_ast_child(id), children@[k]);
                    let j = choose|j: int| 0 <= j < self.edges_view().len() && sel_ast_child(id)(self.edges_view()[j]) == Some(children@[k]);
                    assert(picks(Overlay::Ast, self.edges_view()[j]) == Some((id.0 as int, children@[k].0 as int)));
                    assert(rel(id.0 as int, children@[k].0 as int));
                }
                if overlay_below(*self, Overlay::Ast, id, w) {
                    let c = choose|c: int| #[trigger] rel(id.0 as int, c) && rel_reaches(rel, self.nodes_view().len() as int, c, w.0 as int);
                    let j = choose|j: int| 0 <= j < self.edges_view().len() && #[trigger] picks(Overlay::Ast, self.edges_view()[j]) == Some((id.0 as int, c));
                    let e = self.edges_view()[j];
                    assert(e.source == id);
                    assert(sel_ast_child(id)(e) == Some(e.target));
                    lemma_select_member(self.edges_view(), sel_ast_child(id), e.target);
                    let k = choose|k: int| 0 <= k < children@.len() && children@[k] == e.target;
                    assert(e.target.0 as int == c);
                    assert(overlay_reaches(*self, Overlay::Ast, children@[k], w));
                }
            }
        }
        let mut r: Vec<NodeId> = Vec::new();
        let mut v: usize = 0;
        while v < seen.len()
            invariant
                self.wf(),
                seen@.len() == self.nodes_view().len(),
                forall|w: NodeId| self.valid(w) ==> (seen@[w.0 as int] <==> overlay_below(*self, Overlay::Ast, id, w)),
                v <= seen@.len(),
                r@ == below_ids(*self, id, v as int),
                forall|k: int| 0 <= k < r@.len() ==> (#[trigger] r@[k]).0 < v && self.valid(r@[k]),
                forall|k: int| 0 <= k < r@.len() ==> seen@[(#[trigger] r@[k]).0 as int] && r@[k] != id,
                forall|w: int| 0 <= w < v && seen@[w] && w != id.0 ==> #[trigger] r@.contains(NodeId(w as u32)),
                forall|a: int, b: int| 0 <= a < b < r@.len() ==> r@[a].0 < r@[b].0,
            decreases seen@.len() - v,
        {
            let ghost prev = r@;
            proof {
                let w = NodeId(v as u32);
                assert(w.0 as int == v);
                assert(self.valid(w));
                assert((w != id) == (v != id.0));
            }
            if seen[v] && v != id.0 as usize {
                r.push(NodeId(v as u32));
                proof {
                    assert(r@[r@.len() - 1] == NodeId(v as u32));
                    assert forall|w: int| 0 <= w < v + 1 && seen@[w] && w != id.0 implies #[trigger] r@.contains(NodeId(w as u32)) by {
                        if w < v {
                            assert(prev.contains(NodeId(w as u32)));
                            let t = choose|t: int| 0 <= t < prev.len() && prev[t] == NodeId(w as u32);
                            assert(r@[t] == prev[t]);
                        } else {
                            assert(r@[r@.len() - 1] == NodeId(w as u32));
                        }
                    }
                }
            }
            proof {
                assert(r@ =~= below_ids(*self, id, v as int + 1));
            }
            v = v + 1;
        }
        proof {
            assert forall|w: NodeId| self.valid(w) implies (r@.contains(w) <==> w != id && overlay_below(*self, Overlay::Ast, id, w)) by {
                assert(NodeId(w.0 as int as u32) == w);
                if r@.contains(w) {
                    let t = choose|t: int| 0 <= t < r@.len() && r@[t] == w;
                    assert(seen@[w.0 as int]);
                }
                if w != id && overlay_below(*self, Overlay::Ast, id, w) {
                    assert(seen@[w.0 as int]);
                    assert(w.0 != id.0);
                }
            }
        }
        r
    }
}

} // verus!
