//! Strongly-connected components of a function's control-flow graph and of
//! the whole graph's resolved call graph, with the condensation DAG.

use vstd::prelude::*;
use crate::graph::{calls, is_function_kind, CodePropertyGraph, CpgNodeKind, NodeId};
use crate::overlay::{overlay_adjacency, overlay_rel, Overlay};
use crate::reach::{
    adj_ok, lemma_reaches_refl, lemma_reaches_trans, lemma_realises_reaches, lemma_reverse_reaches,
    lemma_rel_reaches_arc, lemma_rel_reaches_refl, lemma_rel_reaches_trans,
    lemma_within_between, lemma_within_reaches, reaches_within, search, walk_within,
    gather, in_list, reachable, reached_from, reaches, realises, rel_reaches, restrict, reverse_adjacency, step,
    union_adjacency,
};

verus! {

/// The directed graph projection decomposed into components.
#[derive(Debug, Clone, Copy, PartialEq, Eq, Structural, Hash)]
pub enum SccProjection {
    /// One function's intraprocedural control-flow graph.
    ControlFlow { function: crate::graph::NodeId },
    /// The function-to-function call graph of the whole graph.
    CallGraph,
}

/// One maximal strongly-connected component.
#[derive(Debug, Clone, PartialEq, Eq)]
pub struct SccComponent {
    /// Index of this component in [`SccDecomposition::components`].
    pub id: usize,
    /// Members, in increasing id order.
    pub nodes: Vec<crate::graph::NodeId>,
    /// Whether the component holds a directed cycle: several members, or a
    /// single member with a self-loop.
    pub cyclic: bool,
}

impl SccComponent {
    /// A one-node component with a self-loop.
    pub fn is_self_cycle(&self) -> (r: bool)
        ensures
            r == (self.cyclic && self.nodes@.len() == 1),
    {
        self.cyclic && self.nodes.len() == 1
    }

    /// A cycle through several nodes.
    pub fn is_multi_node_cycle(&self) -> (r: bool)
        ensures
            r == (self.nodes@.len() > 1),
    {
        self.nodes.len() > 1
    }
}

/// An edge of the condensation graph, between distinct components.
#[derive(Debug, Clone, Copy, PartialEq, Eq, Structural, Hash)]
pub struct SccCondensationEdge {
    /// Source component id.
    pub source: usize,
    /// Target component id.
    pub target: usize,
}

/// The partition of a projection into maximal strongly-connected components
/// and its acyclic condensation.
#[derive(Debug, Clone, PartialEq, Eq)]
pub struct SccDecomposition {
    /// The projection that was analyzed.
    pub projection: SccProjection,
    /// Components, ordered by their smallest member.
    pub components: Vec<SccComponent>,
    /// Each projected node with the id of its component, in increasing node order.
    pub component_by_node: Vec<(crate::graph::NodeId, usize)>,
    /// Condensation edges, without repeats, ordered by `(source, target)`.
    pub condensation_edges: Vec<SccCondensationEdge>,
}

/// Errors of function-scoped analysis.
#[derive(Debug, Clone, Copy, PartialEq, Eq, Structural)]
pub enum SccAnalysisError {
    /// The requested node does not exist.
    UnknownNode(crate::graph::NodeId),
    /// The requested node is not a function.
    NotAFunction(crate::graph::NodeId),
}

/// The component id that the first entry for `node` in `table` records.
pub open spec fn lookup(table: Seq<(NodeId, usize)>, node: NodeId) -> Option<usize>
    decreases table.len(),
{
    if table.len() == 0 {
        None
    } else if table[0].0 == node {
        Some(table[0].1)
    } else {
        lookup(table.drop_first(), node)
    }
}

impl SccDecomposition {
    /// The component containing `node`.
    pub fn component_of(&self, node: NodeId) -> (r: Option<&SccComponent>)
        ensures
            r matches Some(c) ==> lookup(self.component_by_node@, node) matches Some(id)
                && id < self.components@.len() && *c == self.components@[id as int],
            r is None ==> (lookup(self.component_by_node@, node) matches Some(id) ==> id >= self.components@.len()),
    {
        let mut i: usize = 0;
        assert(self.component_by_node@.skip(0) =~= self.component_by_node@);
        while i < self.component_by_node.len()
            invariant
                i <= self.component_by_node@.len(),
                lookup(self.component_by_node@, node) == lookup(self.component_by_node@.skip(i as int), node),
                i == 0 ==> self.component_by_node@.skip(i as int) == self.component_by_node@,
            decreases self.component_by_node@.len() - i,
        {
            let (v, id) = self.component_by_node[i];
            proof {
                assert(self.component_by_node@.skip(i as int).drop_first() =~= self.component_by_node@.skip(i + 1));
            }
            if v == node {
                if id < self.components.len() {
                    return Some(&self.components[id]);
                } else {
                    return None;
                }
            }
            i = i + 1;
        }
        None
    }

    /// The components that hold a directed cycle, in order.
    pub fn cyclic_components(&self) -> (r: Vec<&SccComponent>)
        ensures
            forall|k: int| 0 <= k < r@.len() ==> (#[trigger] r@[k]).cyclic && self.components@.contains(*r@[k]),
            forall|c: int| 0 <= c < self.components@.len() && (#[trigger] self.components@[c]).cyclic ==> r@.contains(&self.components@[c]),
            r@.len() == count_cyclic(self.components@),
            r@.map_values(|c: &SccComponent| *c) == cyclic_of(self.components@),
    {
        let mut r: Vec<&SccComponent> = Vec::new();
        let mut i: usize = 0;
        while i < self.components.len()
            invariant
                i <= self.components@.len(),
                forall|k: int| 0 <= k < r@.len() ==> (#[trigger] r@[k]).cyclic && self.components@.contains(*r@[k]),
                forall|c: int| 0 <= c < i && (#[trigger] self.components@[c]).cyclic ==> r@.contains(&self.components@[c]),
                r@.len() == count_cyclic(self.components@.take(i as int)),
                r@.map_values(|c: &SccComponent| *c) == cyclic_of(self.components@.take(i as int)),
            decreases self.components@.len() - i,
        {
            let ghost prev = r@;
            proof {
                assert(self.components@.take(i + 1).drop_last() =~= self.components@.take(i as int));
            }
            if self.components[i].cyclic {
                r.push(&self.components[i]);
                proof {
                    assert(self.components@.contains(self.components@[i as int]));
                    assert forall|c: int| 0 <= c < i + 1 && (#[trigger] self.components@[c]).cyclic implies r@.contains(&self.components@[c]) by {
                        if c < i {
                            assert(prev.contains(&self.components@[c]));
                            let t = choose|t: int| 0 <= t < prev.len() && prev[t] == &self.components@[c];
                            assert(r@[t] == prev[t]);
                        } else {
                            assert(r@[prev.len() as int] == &self.components@[c]);
                        }
                    }
                    assert(r@.map_values(|c: &SccComponent| *c) =~= prev.map_values(|c: &SccComponent| *c).push(self.components@[i as int]));
                }
            }
            i = i + 1;
        }
        assert(self.components@.take(self.components@.len() as int) =~= self.components@);
        r
    }

    /// No component holds a directed cycle.
    pub fn is_acyclic(&self) -> (r: bool)
        ensures
            r == forall|c: int| 0 <= c < self.components@.len() ==> !(#[trigger] self.components@[c]).cyclic,
    {
        let mut i: usize = 0;
        while i < self.components.len()
            invariant
                i <= self.components@.len(),
                forall|c: int| 0 <= c < i ==> !(#[trigger] self.components@[c]).cyclic,
            decreases self.components@.len() - i,
        {
            if self.components[i].cyclic {
                return false;
            }
            i = i + 1;
        }
        true
    }

    /// Number of projected nodes.
    pub fn node_count(&self) -> (r: usize)
        ensures
            r == self.component_by_node@.len(),
    {
        self.component_by_node.len()
    }
}

/// The cyclic components of `cs`, in order.
pub open spec fn cyclic_of(cs: Seq<SccComponent>) -> Seq<SccComponent>
    decreases cs.len(),
{
    if cs.len() == 0 {
        Seq::empty()
    } else {
        cyclic_of(cs.drop_last()) + if cs.last().cyclic { seq![cs.last()] } else { Seq::empty() }
    }
}

/// Number of cyclic components.
pub open spec fn count_cyclic(cs: Seq<SccComponent>) -> nat
    decreases cs.len(),
{
    if cs.len() == 0 {
        0
    } else {
        count_cyclic(cs.drop_last()) + if cs.last().cyclic { 1nat } else { 0nat }
    }
}

// ---------------------------------------------------------------------------
// What a decomposition is
// ---------------------------------------------------------------------------

/// `a` and `b` reach each other.
pub open spec fn mutual(rel: spec_fn(int, int) -> bool, n: int, a: int, b: int) -> bool {
    rel_reaches(rel, n, a, b) && rel_reaches(rel, n, b, a)
}

/// Node `v` belongs to component `c`.
pub open spec fn member(d: SccDecomposition, c: int, v: crate::graph::NodeId) -> bool {
    0 <= c < d.components@.len() && d.components@[c].nodes@.contains(v)
}

/// Lexicographic order on condensation edges.
pub open spec fn edge_lt(x: SccCondensationEdge, y: SccCondensationEdge) -> bool {
    x.source < y.source || (x.source == y.source && x.target < y.target)
}

/// `d` is the decomposition of the graph on nodes `0..n` whose vertices
/// satisfy `vertex` and whose arcs are `rel`: components ordered by their
/// smallest member, each the set of vertices reaching and reached by that
/// member, cyclic exactly when they hold a cycle, indexed node by node, and
/// linked by every arc between distinct components.
pub open spec fn is_scc_decomposition(d: SccDecomposition, n: int, vertex: spec_fn(int) -> bool, rel: spec_fn(int, int) -> bool) -> bool {
    let cs = d.components@;
    &&& forall|c: int| 0 <= c < cs.len() ==> (#[trigger] cs[c]).id == c && cs[c].nodes@.len() > 0
    &&& forall|c: int, i: int, j: int| 0 <= c < cs.len() && 0 <= i < j < cs[c].nodes@.len() ==>
        (#[trigger] cs[c].nodes@[i]).0 < (#[trigger] cs[c].nodes@[j]).0
    &&& forall|c1: int, c2: int| 0 <= c1 < c2 < cs.len() ==> (#[trigger] cs[c1].nodes@[0]).0 < (#[trigger] cs[c2].nodes@[0]).0
    &&& forall|c: int, v: crate::graph::NodeId| #[trigger] member(d, c, v) ==> 0 <= v.0 < n && vertex(v.0 as int)
    &&& forall|v: int| 0 <= v < n && #[trigger] vertex(v) ==> exists|c: int| #[trigger] member(d, c, crate::graph::NodeId(v as u32))
    &&& forall|c: int, a: crate::graph::NodeId, b: crate::graph::NodeId| #[trigger] member(d, c, a) ==>
        (#[trigger] member(d, c, b) <==> 0 <= b.0 < n && vertex(b.0 as int) && mutual(rel, n, a.0 as int, b.0 as int))
    &&& forall|c: int| 0 <= c < cs.len() ==> ((#[trigger] cs[c]).cyclic <==>
        (cs[c].nodes@.len() > 1 || rel(cs[c].nodes@[0].0 as int, cs[c].nodes@[0].0 as int)))
    &&& forall|i: int, j: int| 0 <= i < j < d.component_by_node@.len() ==>
        (#[trigger] d.component_by_node@[i]).0.0 < (#[trigger] d.component_by_node@[j]).0.0
    &&& forall|v: crate::graph::NodeId, c: usize| #[trigger] d.component_by_node@.contains((v, c)) <==> member(d, c as int, v)
    &&& forall|i: int, j: int| 0 <= i < j < d.condensation_edges@.len() ==>
        edge_lt(#[trigger] d.condensation_edges@[i], #[trigger] d.condensation_edges@[j])
    &&& forall|e: SccCondensationEdge| #[trigger] d.condensation_edges@.contains(e) <==> (e.source != e.target
        && exists|a: crate::graph::NodeId, b: crate::graph::NodeId| #[trigger] member(d, e.source as int, a)
            && #[trigger] member(d, e.target as int, b) && rel(a.0 as int, b.0 as int))
}

/// A walk along condensation edges, by component ids.
pub open spec fn condensation_walk(d: SccDecomposition, p: Seq<usize>) -> bool {
    &&& p.len() >= 1
    &&& forall|i: int| 0 <= i < p.len() - 1 ==>
        d.condensation_edges@.contains(SccCondensationEdge { source: #[trigger] p[i], target: p[i + 1] })
}

/// The smallest member of component `c`.
pub open spec fn leader(d: SccDecomposition, c: int) -> int {
    d.components@[c].nodes@[0].0 as int
}

/// A node lies in one component only.
proof fn lemma_member_unique(d: SccDecomposition, n: int, vertex: spec_fn(int) -> bool, rel: spec_fn(int, int) -> bool,
    c1: int, c2: int, v: NodeId)
    requires
        is_scc_decomposition(d, n, vertex, rel),
        member(d, c1, v),
        member(d, c2, v),
    ensures
        c1 == c2,
{
    assert(d.component_by_node@.contains((v, c1 as usize)));
    assert(d.component_by_node@.contains((v, c2 as usize)));
    let i = choose|i: int| 0 <= i < d.component_by_node@.len() && d.component_by_node@[i] == (v, c1 as usize);
    let j = choose|j: int| 0 <= j < d.component_by_node@.len() && d.component_by_node@[j] == (v, c2 as usize);
    if i < j {
        assert(d.component_by_node@[i].0.0 < d.component_by_node@[j].0.0);
    } else if j < i {
        assert(d.component_by_node@[j].0.0 < d.component_by_node@[i].0.0);
    }
}

/// What a condensation walk relies on: components are non-empty, members
/// are vertices of `0..n`, members of one component reach each other, and an
/// edge joins components with an arc between them.
spec fn walk_facts(d: SccDecomposition, n: int, rel: spec_fn(int, int) -> bool) -> bool {
    &&& forall|c: int| 0 <= c < d.components@.len() ==> (#[trigger] d.components@[c]).nodes@.len() > 0
    &&& forall|c: int, v: NodeId| #[trigger] member(d, c, v) ==> 0 <= v.0 < n
    &&& forall|c: int, a: NodeId, b: NodeId| #[trigger] member(d, c, a) && #[trigger] member(d, c, b) ==>
        mutual(rel, n, a.0 as int, b.0 as int)
    &&& forall|e: SccCondensationEdge| #[trigger] d.condensation_edges@.contains(e) ==>
        exists|a: NodeId, b: NodeId| #[trigger] member(d, e.source as int, a)
            && #[trigger] member(d, e.target as int, b) && rel(a.0 as int, b.0 as int)
}

proof fn lemma_walk_facts(d: SccDecomposition, n: int, vertex: spec_fn(int) -> bool, rel: spec_fn(int, int) -> bool)
    requires
        is_scc_decomposition(d, n, vertex, rel),
    ensures
        walk_facts(d, n, rel),
{
}

/// A condensation edge leads from a leader that reaches the next leader.
proof fn lemma_edge_reaches(d: SccDecomposition, n: int, rel: spec_fn(int, int) -> bool, e: SccCondensationEdge)
    requires
        walk_facts(d, n, rel),
        d.condensation_edges@.contains(e),
    ensures
        0 <= e.source < d.components@.len(),
        0 <= e.target < d.components@.len(),
        rel_reaches(rel, n, leader(d, e.source as int), leader(d, e.target as int)),
{
    let cs = d.components@;
    let (a, b) = choose|a: NodeId, b: NodeId| #[trigger] member(d, e.source as int, a)
        && #[trigger] member(d, e.target as int, b) && rel(a.0 as int, b.0 as int);
    let c = e.source as int;
    let t = e.target as int;
    assert(cs[c].nodes@.len() > 0 && cs[t].nodes@.len() > 0);
    let lc = cs[c].nodes@[0];
    let lt = cs[t].nodes@[0];
    assert(member(d, c, lc));
    assert(member(d, t, lt));
    assert(mutual(rel, n, lc.0 as int, a.0 as int));
    assert(mutual(rel, n, b.0 as int, lt.0 as int));
    lemma_rel_reaches_arc(rel, n, a.0 as int, b.0 as int);
    lemma_rel_reaches_trans(rel, n, lc.0 as int, a.0 as int, b.0 as int);
    lemma_rel_reaches_trans(rel, n, lc.0 as int, b.0 as int, lt.0 as int);
}

/// Along a condensation walk, the leader of each component reaches the
/// leader of every later one.
proof fn lemma_walk_reaches(d: SccDecomposition, n: int, rel: spec_fn(int, int) -> bool, p: Seq<usize>, i: int, j: int)
    requires
        walk_facts(d, n, rel),
        condensation_walk(d, p),
        0 <= i <= j < p.len(),
        0 <= p[i] < d.components@.len(),
    ensures
        0 <= p[j] < d.components@.len(),
        rel_reaches(rel, n, leader(d, p[i] as int), leader(d, p[j] as int)),
    decreases j - i,
{
    if i == j {
        let c = p[i] as int;
        assert(d.components@[c].nodes@.len() > 0);
        assert(member(d, c, d.components@[c].nodes@[0]));
        lemma_rel_reaches_refl(rel, n, leader(d, c));
    } else {
        lemma_walk_reaches(d, n, rel, p, i, j - 1);
        let e = SccCondensationEdge { source: p[j - 1], target: p[j] };
        assert(d.condensation_edges@.contains(e));
        lemma_edge_reaches(d, n, rel, e);
        lemma_rel_reaches_trans(rel, n, leader(d, p[i] as int), leader(d, p[j - 1] as int), leader(d, p[j] as int));
    }
}

/// The condensation is acyclic: a walk of one or more condensation edges
/// never comes back to the component it started from.
pub proof fn law_condensation_acyclic(d: SccDecomposition, n: int, vertex: spec_fn(int) -> bool, rel: spec_fn(int, int) -> bool,
    p: Seq<usize>)
    requires
        is_scc_decomposition(d, n, vertex, rel),
        condensation_walk(d, p),
        p.len() >= 2,
    ensures
        p[0] != p.last(),
{
    let cs = d.components@;
    let e = SccCondensationEdge { source: p[0], target: p[1] };
    assert(d.condensation_edges@.contains(e));
    let (a, b) = choose|a: NodeId, b: NodeId| #[trigger] member(d, e.source as int, a)
        && #[trigger] member(d, e.target as int, b) && rel(a.0 as int, b.0 as int);
    if p[0] == p.last() {
        let last = p.len() - 1;
        lemma_walk_facts(d, n, vertex, rel);
        lemma_walk_reaches(d, n, rel, p, 0, 1);
        lemma_walk_reaches(d, n, rel, p, 1, last);
        let c0 = p[0] as int;
        let c1 = p[1] as int;
        let l0 = cs[c0].nodes@[0];
        let l1 = cs[c1].nodes@[0];
        assert(member(d, c0, l0));
        assert(member(d, c1, l1));
        assert(mutual(rel, n, l0.0 as int, l1.0 as int));
        assert(member(d, c0, l1));
        lemma_member_unique(d, n, vertex, rel, c0, c1, l1);
        assert(e.source != e.target);
    }
}

/// No cyclic component remains among `cs` exactly when none of them is cyclic.
proof fn lemma_cyclic_of_empty(cs: Seq<SccComponent>)
    ensures
        cyclic_of(cs).len() == 0 <==> forall|c: int| 0 <= c < cs.len() ==> !(#[trigger] cs[c]).cyclic,
    decreases cs.len(),
{
    if cs.len() > 0 {
        lemma_cyclic_of_empty(cs.drop_last());
        if cyclic_of(cs).len() == 0 {
            assert forall|c: int| 0 <= c < cs.len() implies !(#[trigger] cs[c]).cyclic by {
                if c < cs.len() - 1 {
                    assert(cs.drop_last()[c] == cs[c]);
                }
            }
        }
        if forall|c: int| 0 <= c < cs.len() ==> !(#[trigger] cs[c]).cyclic {
            assert forall|c: int| 0 <= c < cs.drop_last().len() implies !(#[trigger] cs.drop_last()[c]).cyclic by {
                assert(cs.drop_last()[c] == cs[c]);
            }
            assert(!cs[cs.len() - 1].cyclic);
        }
    }
}

/// A decomposition is acyclic, no component being cyclic and no cyclic
/// component being listed, exactly when the graph has no cycle: no vertex
/// with an arc to itself and no two distinct vertices that reach each other.
pub proof fn law_acyclic_iff_no_cycle(d: SccDecomposition, n: int, vertex: spec_fn(int) -> bool, rel: spec_fn(int, int) -> bool)
    requires
        is_scc_decomposition(d, n, vertex, rel),
        n <= u32::MAX + 1,
    ensures
        (forall|c: int| 0 <= c < d.components@.len() ==> !(#[trigger] d.components@[c]).cyclic)
            <==> cyclic_of(d.components@).len() == 0,
        (forall|c: int| 0 <= c < d.components@.len() ==> !(#[trigger] d.components@[c]).cyclic) <==> ({
            &&& forall|v: int| 0 <= v < n && vertex(v) ==> !(#[trigger] rel(v, v))
            &&& forall|a: int, b: int| 0 <= a < n && 0 <= b < n && vertex(a) && vertex(b) && a != b
                ==> !#[trigger] mutual(rel, n, a, b)
        }),
{
    let cs = d.components@;
    lemma_cyclic_of_empty(cs);
    let acyclic = forall|c: int| 0 <= c < cs.len() ==> !(#[trigger] cs[c]).cyclic;
    if !acyclic {
        let c = choose|c: int| 0 <= c < cs.len() && (#[trigger] cs[c]).cyclic;
        let l = cs[c].nodes@[0];
        assert(member(d, c, l));
        if cs[c].nodes@.len() > 1 {
            let m = cs[c].nodes@[1];
            assert(member(d, c, m));
            assert(l.0 < m.0);
            assert(mutual(rel, n, l.0 as int, m.0 as int));
        } else {
            assert(rel(l.0 as int, l.0 as int));
        }
    } else {
        assert forall|v: int| 0 <= v < n && vertex(v) implies !(#[trigger] rel(v, v)) by {
            let id = NodeId(v as u32);
            assert(id.0 as int == v);
            let c = choose|c: int| #[trigger] member(d, c, id);
            if rel(v, v) {
                if cs[c].nodes@.len() == 1 {
                    let k = choose|k: int| 0 <= k < cs[c].nodes@.len() && cs[c].nodes@[k] == id;
                    assert(k == 0);
                }
                assert(cs[c].cyclic);
            }
        }
        assert forall|a: int, b: int| 0 <= a < n && 0 <= b < n && vertex(a) && vertex(b) && a != b
            implies !#[trigger] mutual(rel, n, a, b) by {
            let ia = NodeId(a as u32);
            let ib = NodeId(b as u32);
            assert(ia.0 as int == a && ib.0 as int == b);
            let c = choose|c: int| #[trigger] member(d, c, ia);
            if mutual(rel, n, a, b) {
                assert(member(d, c, ib));
                let ka = choose|k: int| 0 <= k < cs[c].nodes@.len() && cs[c].nodes@[k] == ia;
                let kb = choose|k: int| 0 <= k < cs[c].nodes@.len() && cs[c].nodes@[k] == ib;
                assert(ka != kb);
                assert(cs[c].nodes@.len() > 1);
                assert(cs[c].cyclic);
            }
        }
    }
}

/// The members of the components of `cs`, component after component.
pub open spec fn members_of(cs: Seq<SccComponent>) -> Seq<NodeId>
    decreases cs.len(),
{
    if cs.len() == 0 {
        Seq::empty()
    } else {
        members_of(cs.drop_last()) + cs.last().nodes@
    }
}

/// The number of members over the components of `cs`.
pub open spec fn total_size(cs: Seq<SccComponent>) -> nat
    decreases cs.len(),
{
    if cs.len() == 0 {
        0
    } else {
        total_size(cs.drop_last()) + cs.last().nodes@.len()
    }
}

/// The nodes of `0..n` that are vertices.
pub open spec fn vertex_set(n: int, vertex: spec_fn(int) -> bool) -> Set<NodeId> {
    Set::new(|v: NodeId| (v.0 as int) < n && vertex(v.0 as int))
}

/// The members of the first `k` components: as many as their sizes, each
/// once, and each a member of one of them.
proof fn lemma_members_of(d: SccDecomposition, n: int, vertex: spec_fn(int) -> bool, rel: spec_fn(int, int) -> bool, k: int)
    requires
        is_scc_decomposition(d, n, vertex, rel),
        0 <= k <= d.components@.len(),
    ensures
        members_of(d.components@.take(k)).len() == total_size(d.components@.take(k)),
        members_of(d.components@.take(k)).no_duplicates(),
        forall|v: NodeId| members_of(d.components@.take(k)).contains(v) <==> exists|c: int| 0 <= c < k && #[trigger] member(d, c, v),
    decreases k,
{
    let cs = d.components@;
    if k == 0 {
        assert(cs.take(0) =~= Seq::<SccComponent>::empty());
    } else {
        lemma_members_of(d, n, vertex, rel, k - 1);
        let pre = members_of(cs.take(k - 1));
        let last = cs[k - 1].nodes@;
        assert(cs.take(k).drop_last() =~= cs.take(k - 1));
        assert(cs.take(k).last() == cs[k - 1]);
        assert(members_of(cs.take(k)) == pre + last);
        assert(last.no_duplicates()) by {
            assert forall|i: int, j: int| 0 <= i < last.len() && 0 <= j < last.len() && i != j implies last[i] != last[j] by {
                if i < j {
                    assert(last[i].0 < last[j].0);
                } else {
                    assert(last[j].0 < last[i].0);
                }
            }
        }
        assert forall|i: int, j: int| 0 <= i < pre.len() && 0 <= j < last.len() implies pre[i] != last[j] by {
            if pre[i] == last[j] {
                assert(pre.contains(pre[i]));
                let c = choose|c: int| 0 <= c < k - 1 && #[trigger] member(d, c, pre[i]);
                assert(member(d, k - 1, last[j]));
                lemma_member_unique(d, n, vertex, rel, c, k - 1, last[j]);
            }
        }
        vstd::seq_lib::lemma_no_dup_in_concat(pre, last);
        assert forall|v: NodeId| members_of(cs.take(k)).contains(v) <==> exists|c: int| 0 <= c < k && #[trigger] member(d, c, v) by {
            if members_of(cs.take(k)).contains(v) {
                let i = choose|i: int| 0 <= i < (pre + last).len() && (pre + last)[i] == v;
                if i < pre.len() {
                    assert(pre.contains(v));
                } else {
                    assert(last[i - pre.len()] == v);
                    assert(member(d, k - 1, v));
                }
            }
            if exists|c: int| 0 <= c < k && #[trigger] member(d, c, v) {
                let c = choose|c: int| 0 <= c < k && #[trigger] member(d, c, v);
                if c < k - 1 {
                    assert(exists|c2: int| 0 <= c2 < k - 1 && #[trigger] member(d, c2, v));
                    assert(pre.contains(v));
                    let i = choose|i: int| 0 <= i < pre.len() && pre[i] == v;
                    assert((pre + last)[i] == v);
                } else {
                    let j = choose|j: int| 0 <= j < last.len() && last[j] == v;
                    assert((pre + last)[pre.len() + j] == v);
                }
            }
        }
    }
}

/// A decomposition counts each projected node once: the node table has one
/// entry per vertex of the graph, and the components' sizes add up to the
/// same number.
pub proof fn law_node_count_partition(d: SccDecomposition, n: int, vertex: spec_fn(int) -> bool, rel: spec_fn(int, int) -> bool)
    requires
        is_scc_decomposition(d, n, vertex, rel),
        n <= u32::MAX + 1,
    ensures
        d.component_by_node@.len() == total_size(d.components@),
        d.component_by_node@.len() == vertex_set(n, vertex).len(),
{
    let cs = d.components@;
    let table = d.component_by_node@;
    let vs = vertex_set(n, vertex);
    lemma_members_of(d, n, vertex, rel, cs.len() as int);
    assert(cs.take(cs.len() as int) =~= cs);
    let flat = members_of(cs);
    let ids = table.map_values(|e: (NodeId, usize)| e.0);
    assert(ids.no_duplicates()) by {
        assert forall|i: int, j: int| 0 <= i < ids.len() && 0 <= j < ids.len() && i != j implies ids[i] != ids[j] by {
            if i < j {
                assert(table[i].0.0 < table[j].0.0);
            } else {
                assert(table[j].0.0 < table[i].0.0);
            }
        }
    }
    assert(flat.to_set() =~= vs) by {
        assert forall|v: NodeId| flat.to_set().contains(v) <==> vs.contains(v) by {
            if flat.contains(v) {
                let c = choose|c: int| 0 <= c < cs.len() && #[trigger] member(d, c, v);
            }
            if vs.contains(v) {
                let w = v.0 as int;
                assert(NodeId(w as u32) == v);
                let c = choose|c: int| #[trigger] member(d, c, NodeId(w as u32));
            }
        }
    }
    assert(ids.to_set() =~= vs) by {
        assert forall|v: NodeId| ids.to_set().contains(v) <==> vs.contains(v) by {
            if ids.contains(v) {
                let i = choose|i: int| 0 <= i < ids.len() && ids[i] == v;
                assert(table.contains(table[i]));
                assert(table[i] == (v, table[i].1));
                assert(member(d, table[i].1 as int, v));
            }
            if vs.contains(v) {
                let w = v.0 as int;
                assert(NodeId(w as u32) == v);
                let c = choose|c: int| #[trigger] member(d, c, NodeId(w as u32));
                assert(table.contains((v, c as usize)));
                let i = choose|i: int| 0 <= i < table.len() && table[i] == (v, c as usize);
                assert(ids[i] == v);
            }
        }
    }
    flat.unique_seq_to_set();
    ids.unique_seq_to_set();
}

// ---------------------------------------------------------------------------
// Mutual-reachability classes over adjacency lists
// ---------------------------------------------------------------------------

/// `a` and `b` reach each other over the adjacency lists.
pub open spec fn adj_mutual(adj: Seq<Vec<usize>>, a: int, b: int) -> bool {
    reaches(adj, a, b) && reaches(adj, b, a)
}

proof fn lemma_mutual_trans(adj: Seq<Vec<usize>>, a: int, b: int, c: int)
    requires
        adj_mutual(adj, a, b),
        adj_mutual(adj, b, c),
    ensures
        adj_mutual(adj, a, c),
{
    lemma_reaches_trans(adj, a, b, c);
    lemma_reaches_trans(adj, c, b, a);
}

/// The class assignment computed by [`classes`].
pub open spec fn classes_ok(adj: Seq<Vec<usize>>, mask: Seq<bool>, comp: Seq<usize>, reps: Seq<usize>) -> bool {
    let n = adj.len();
    &&& comp.len() == n
    &&& forall|v: int| 0 <= v < n && mask[v] ==> (#[trigger] comp[v]) < reps.len()
    &&& forall|a: int, b: int| 0 <= a < n && 0 <= b < n && mask[a] && mask[b] ==>
        (comp[a] == comp[b] <==> #[trigger] adj_mutual(adj, a, b))
    &&& forall|c: int| 0 <= c < reps.len() ==> (#[trigger] reps[c]) < n && mask[reps[c] as int] && comp[reps[c] as int] == c
    &&& forall|c1: int, c2: int| 0 <= c1 < c2 < reps.len() ==> (#[trigger] reps[c1]) < (#[trigger] reps[c2])
    &&& forall|v: int| 0 <= v < n && mask[v] ==> reps[#[trigger] comp[v] as int] <= v
}

/// What the two confined searches of [`classes`] find from a vertex `v` no
/// earlier class holds: backwards over unassigned vertices, then forwards over
/// what the first search reached, they find exactly the vertices mutually
/// reachable with `v`.
proof fn lemma_found_class(
    adj: Seq<Vec<usize>>,
    radj: Seq<Vec<usize>>,
    comp: Seq<usize>,
    key: usize,
    back: Seq<usize>,
    fwd: Seq<usize>,
    v: int,
    epoch: usize,
)
    requires
        adj_ok(adj),
        radj.len() == adj.len(),
        key == adj.len(),
        forall|a: int, b: int| 0 <= a < adj.len() && 0 <= b < adj.len() ==> (step(radj, a, b) <==> step(adj, b, a)),
        comp.len() == adj.len(),
        back.len() == adj.len(),
        fwd.len() == adj.len(),
        0 <= v < adj.len(),
        forall|x: int| 0 <= x < adj.len() && #[trigger] adj_mutual(adj, x, v) ==> comp[x] == key,
        forall|x: int| 0 <= x < adj.len() ==> (back[x] == epoch <==> reaches_within(radj, comp, key, v, x)),
        forall|x: int| 0 <= x < adj.len() ==> (fwd[x] == epoch <==> reaches_within(adj, back, epoch, v, x)),
    ensures
        forall|x: int| 0 <= x < adj.len() ==> (fwd[x] == epoch <==> #[trigger] adj_mutual(adj, x, v)),
{
    let n = adj.len();
    // Whatever the backward search reaches reaches `v`.
    assert forall|x: int| 0 <= x < n && back[x] == epoch implies reaches(adj, x, v) by {
        lemma_within_reaches(radj, comp, key, v, x);
        lemma_reverse_reaches(adj, radj, v, x);
    }
    // The backward search reaches every vertex mutually reachable with `v`.
    assert forall|x: int| 0 <= x < n && #[trigger] adj_mutual(adj, x, v) implies back[x] == epoch by {
        lemma_reverse_reaches(radj, adj, x, v);
        assert forall|y: int| 0 <= y < n && reaches(radj, v, y) && reaches(radj, y, x) implies comp[y] == key by {
            lemma_reverse_reaches(adj, radj, v, y);
            lemma_reverse_reaches(adj, radj, y, x);
            lemma_reaches_trans(adj, v, x, y);
            assert(adj_mutual(adj, y, v));
        }
        lemma_within_between(radj, comp, key, v, x);
    }
    assert forall|x: int| 0 <= x < n implies (fwd[x] == epoch <==> #[trigger] adj_mutual(adj, x, v)) by {
        if fwd[x] == epoch {
            lemma_within_reaches(adj, back, epoch, v, x);
        }
        if adj_mutual(adj, x, v) {
            assert forall|y: int| 0 <= y < n && reaches(adj, v, y) && reaches(adj, y, x) implies back[y] == epoch by {
                lemma_reaches_trans(adj, y, x, v);
                assert(adj_mutual(adj, y, v));
            }
            lemma_within_between(adj, back, epoch, v, x);
        }
    }
}

/// Partitions the vertices marked in `mask` into classes of mutual
/// reachability, numbered in increasing order of their smallest member; also
/// returns each class's smallest member.
pub fn classes(adj: &Vec<Vec<usize>>, mask: &Vec<bool>) -> (r: (Vec<usize>, Vec<usize>))
    requires
        adj_ok(adj@),
        mask@.len() == adj@.len(),
    ensures
        classes_ok(adj@, mask@, r.0@, r.1@),
{
    let n = adj.len();
    let radj = reverse_adjacency(adj);
    let mut comp: Vec<usize> = Vec::new();
    let mut back: Vec<usize> = Vec::new();
    let mut fwd: Vec<usize> = Vec::new();
    let mut i: usize = 0;
    while i < n
        invariant
            n == adj@.len(),
            i <= n,
            comp@.len() == i,
            back@.len() == i,
            fwd@.len() == i,
            forall|j: int| 0 <= j < i ==> comp@[j] == n && back@[j] == 0 && fwd@[j] == 0,
        decreases n - i,
    {
        comp.push(n);
        back.push(0);
        fwd.push(0);
        i = i + 1;
    }
    let mut reps: Vec<usize> = Vec::new();
    let mut v: usize = 0;
    while v < n
        invariant
            n == adj@.len(),
            adj_ok(adj@),
            mask@.len() == n,
            radj@.len() == n,
            adj_ok(radj@),
            forall|a: int, b: int| 0 <= a < n && 0 <= b < n ==> (step(radj@, a, b) <==> step(adj@, b, a)),
            v <= n,
            comp@.len() == n,
            back@.len() == n,
            fwd@.len() == n,
            reps@.len() <= v,
            forall|u: int| 0 <= u < n ==> back@[u] <= reps@.len() && fwd@[u] <= reps@.len(),
            forall|u: int| 0 <= u < n && !mask@[u] ==> comp@[u] == n,
            forall|u: int| 0 <= u < n ==> (#[trigger] comp@[u]) == n || comp@[u] < reps@.len(),
            forall|u: int| 0 <= u < n && (#[trigger] comp@[u]) < reps@.len() ==>
                mask@[u] && adj_mutual(adj@, u, reps@[comp@[u] as int] as int) && reps@[comp@[u] as int] <= u,
            forall|u: int, c: int| 0 <= u < n && 0 <= c < reps@.len() && mask@[u] && #[trigger] adj_mutual(adj@, u, reps@[c] as int)
                ==> comp@[u] == c,
            forall|u: int| 0 <= u < v && mask@[u] ==> (#[trigger] comp@[u]) != n,
            forall|c: int| 0 <= c < reps@.len() ==> (#[trigger] reps@[c]) < v && mask@[reps@[c] as int] && comp@[reps@[c] as int] == c,
            forall|c1: int, c2: int| 0 <= c1 < c2 < reps@.len() ==> (#[trigger] reps@[c1]) < (#[trigger] reps@[c2]),
        decreases n - v,
    {
        if mask[v] && comp[v] == n {
            let c = reps.len();
            let epoch = c + 1;
            let ghost comp0 = comp@;
            proof {
                assert forall|d: int| 0 <= d < c implies !#[trigger] adj_mutual(adj@, v as int, reps@[d] as int) by {
                    if adj_mutual(adj@, v as int, reps@[d] as int) {
                        assert(comp@[v as int] == d);
                    }
                }
                assert forall|x: int| 0 <= x < n && mask@[x] && adj_mutual(adj@, x, v as int) implies x >= v by {
                    if x < v {
                        assert(comp@[x] != n);
                        let d = comp@[x] as int;
                        assert(adj_mutual(adj@, x, reps@[d] as int));
                        lemma_mutual_trans(adj@, v as int, x, reps@[d] as int);
                        assert(comp@[v as int] == d);
                    }
                }
                assert forall|x: int| 0 <= x < n && #[trigger] adj_mutual(adj@, x, v as int) implies comp@[x] == n by {
                    if mask@[x] && comp@[x] != n {
                        let d = comp@[x] as int;
                        assert(adj_mutual(adj@, x, reps@[d] as int));
                        lemma_mutual_trans(adj@, v as int, x, reps@[d] as int);
                    }
                }
            }
            let _reached = search(&radj, v, &comp, n, &mut back, epoch);
            proof {
                assert(walk_within(radj@, comp0, n, seq![v as int]));
            }
            let class = search(adj, v, &back, epoch, &mut fwd, epoch);
            proof {
                lemma_found_class(adj@, radj@, comp@, n, back@, fwd@, v as int, epoch);
            }
            let mut k: usize = 0;
            while k < class.len()
                invariant
                    n == adj@.len(),
                    mask@.len() == n,
                    comp@.len() == n,
                    comp0.len() == n,
                    v < n,
                    c == reps@.len(),
                    c < n,
                    k <= class@.len(),
                    forall|t: int| 0 <= t < class@.len() ==> (#[trigger] class@[t]) < n,
                    forall|x: int| 0 <= x < n ==> (class@.contains(x as usize) <==> #[trigger] adj_mutual(adj@, x, v as int)),
                    forall|x: int| 0 <= x < n && comp@[x] != comp0[x] ==> comp@[x] == c && mask@[x] && adj_mutual(adj@, x, v as int),
                    forall|x: int| 0 <= x < n ==> comp0[x] == n || comp0[x] < c,
                    forall|t: int| 0 <= t < k && mask@[class@[t] as int] ==> comp@[#[trigger] class@[t] as int] == c,
                decreases class@.len() - k,
            {
                let u = class[k];
                if mask[u] {
                    comp.set(u, c);
                }
                k = k + 1;
            }
            proof {
                assert forall|x: int| 0 <= x < n implies (comp@[x] == c <==> mask@[x] && #[trigger] adj_mutual(adj@, x, v as int)) by {
                    if mask@[x] && adj_mutual(adj@, x, v as int) {
                        assert(class@.contains(x as usize));
                        let t = choose|t: int| 0 <= t < class@.len() && class@[t] == x as usize;
                        assert(class@[t] as int == x);
                        assert(mask@[class@[t] as int]);
                        assert(comp@[class@[t] as int] == c);
                    }
                    if comp@[x] == c {
                        if comp@[x] == comp0[x] {
                            assert(comp0[x] == n || comp0[x] < c);
                            assert(false);
                        }
                    }
                }
                lemma_reaches_refl(adj@, v as int);
                assert(adj_mutual(adj@, v as int, v as int));
            }
            reps.push(v);
            proof {
                assert(comp@[v as int] == c);
                assert forall|u: int| 0 <= u < n && (#[trigger] comp@[u]) < reps@.len() implies
                    mask@[u] && adj_mutual(adj@, u, reps@[comp@[u] as int] as int) && reps@[comp@[u] as int] <= u by {
                    if comp@[u] != c {
                        assert(comp@[u] == comp0[u]);
                    }
                }
                assert forall|x: int, d: int| 0 <= x < n && 0 <= d < reps@.len() && mask@[x] && #[trigger] adj_mutual(adj@, x, reps@[d] as int)
                    implies comp@[x] == d by {
                    if d == c {
                        assert(reps@[d] == v);
                    } else {
                        assert(comp0[x] == d);
                        if comp@[x] != comp0[x] {
                            lemma_mutual_trans(adj@, v as int, x, reps@[d] as int);
                        }
                    }
                }
                assert forall|d: int| 0 <= d < reps@.len() implies (#[trigger] reps@[d]) < v + 1 && mask@[reps@[d] as int] && comp@[reps@[d] as int] == d by {
                    if d < c {
                        let r = reps@[d] as int;
                        assert(comp0[r] == d);
                        if comp@[r] != comp0[r] {
                            lemma_reaches_refl(adj@, r);
                            lemma_mutual_trans(adj@, v as int, r, r);
                        }
                    }
                }
                assert forall|u: int| 0 <= u < v + 1 && mask@[u] implies (#[trigger] comp@[u]) != n by {
                    if comp@[u] != comp0[u] {
                        assert(comp@[u] == c);
                    }
                }
                assert forall|u: int| 0 <= u < n implies (#[trigger] comp@[u]) == n || comp@[u] < reps@.len() by {
                    if comp@[u] != comp0[u] {
                        assert(comp@[u] == c);
                    }
                }
            }
        }
        v = v + 1;
    }
    proof {
        assert forall|a: int, b: int| 0 <= a < n && 0 <= b < n && mask@[a] && mask@[b] implies
            (comp@[a] == comp@[b] <==> #[trigger] adj_mutual(adj@, a, b)) by {
            let ca = comp@[a] as int;
            let cb = comp@[b] as int;
            assert(comp@[a] != n);
            assert(comp@[b] != n);
            if ca == cb {
                assert(adj_mutual(adj@, a, reps@[ca] as int));
                assert(adj_mutual(adj@, b, reps@[ca] as int));
                lemma_mutual_trans(adj@, a, reps@[ca] as int, b);
            }
            if adj_mutual(adj@, a, b) {
                assert(adj_mutual(adj@, b, reps@[cb] as int));
                lemma_mutual_trans(adj@, a, b, reps@[cb] as int);
            }
        }
    }
    (comp, reps)
}

// ---------------------------------------------------------------------------
// Assembling the decomposition
// ---------------------------------------------------------------------------

/// Whether `row` holds `x`.
fn row_has(row: &Vec<usize>, x: usize) -> (r: bool)
    ensures
        r == exists|k: int| 0 <= k < row@.len() && row@[k] == x,
{
    let mut k: usize = 0;
    while k < row.len()
        invariant
            k <= row@.len(),
            forall|j: int| 0 <= j < k ==> row@[j] != x,
        decreases row@.len() - k,
    {
        if row[k] == x {
            return true;
        }
        k = k + 1;
    }
    false
}

/// Lexicographic comparison of condensation edges.
fn edge_before(x: SccCondensationEdge, y: SccCondensationEdge) -> (r: bool)
    ensures
        r == edge_lt(x, y),
{
    x.source < y.source || (x.source == y.source && x.target < y.target)
}

/// Inserts `e` into a strictly increasing list, keeping it so.
fn insert_sorted(v: &mut Vec<SccCondensationEdge>, e: SccCondensationEdge)
    requires
        forall|i: int, j: int| 0 <= i < j < old(v)@.len() ==> edge_lt(#[trigger] old(v)@[i], #[trigger] old(v)@[j]),
    ensures
        forall|i: int, j: int| 0 <= i < j < final(v)@.len() ==> edge_lt(#[trigger] final(v)@[i], #[trigger] final(v)@[j]),
        forall|x: SccCondensationEdge| final(v)@.contains(x) <==> (old(v)@.contains(x) || x == e),
{
    let len = v.len();
    if len == 0 || edge_before(v[len - 1], e) {
        let ghost before = v@;
        v.push(e);
        proof {
            assert forall|i: int, j: int| 0 <= i < j < v@.len() implies edge_lt(#[trigger] v@[i], #[trigger] v@[j]) by {
                assert(v@[i] == before[i]);
                if j < len {
                    assert(v@[j] == before[j]);
                } else if i < len - 1 {
                    assert(edge_lt(before[i], before[len - 1]));
                }
            }
            assert forall|x: SccCondensationEdge| #[trigger] v@.contains(x) <==> (before.contains(x) || x == e) by {
                if v@.contains(x) {
                    let t = choose|t: int| 0 <= t < v@.len() && v@[t] == x;
                    if t < len {
                        assert(before[t] == x);
                    }
                }
                if before.contains(x) {
                    let t = choose|t: int| 0 <= t < before.len() && before[t] == x;
                    assert(v@[t] == x);
                }
                if x == e {
                    assert(v@[len as int] == e);
                }
            }
        }
        return;
    }
    let mut k: usize = 0;
    while k < v.len() && edge_before(v[k], e)
        invariant
            v@ == old(v)@,
            k <= v@.len(),
            forall|j: int| 0 <= j < k ==> edge_lt(#[trigger] v@[j], e),
            forall|i: int, j: int| 0 <= i < j < v@.len() ==> edge_lt(#[trigger] v@[i], #[trigger] v@[j]),
        decreases v@.len() - k,
    {
        k = k + 1;
    }
    if k < v.len() && v[k] == e {
        proof {
            assert(v@[k as int] == e);
            assert forall|x: SccCondensationEdge| v@.contains(x) <==> (old(v)@.contains(x) || x == e) by {
                if x == e {
                    assert(v@[k as int] == x);
                }
            }
        }
        return;
    }
    let ghost before = v@;
    assert(before == old(v)@);
    v.insert(k, e);
    proof {
        assert forall|j: int| k <= j < before.len() implies edge_lt(e, #[trigger] before[j]) by {
            if j > k {
                assert(edge_lt(before[k as int], before[j]));
            }
        }
        assert forall|i: int, j: int| 0 <= i < j < v@.len() implies edge_lt(#[trigger] v@[i], #[trigger] v@[j]) by {
            if j < k {
                assert(v@[i] == before[i] && v@[j] == before[j]);
            } else if j == k {
                assert(v@[i] == before[i]);
            } else if i == k {
                assert(v@[j] == before[j - 1]);
            } else if i < k {
                assert(v@[i] == before[i] && v@[j] == before[j - 1]);
                assert(edge_lt(before[i], e));
            } else {
                assert(v@[i] == before[i - 1] && v@[j] == before[j - 1]);
            }
        }
        assert forall|x: SccCondensationEdge| #[trigger] v@.contains(x) <==> (before.contains(x) || x == e) by {
            if v@.contains(x) {
                let t = choose|t: int| 0 <= t < v@.len() && v@[t] == x;
                if t < k {
                    assert(before[t] == x);
                } else if t > k {
                    assert(before[t - 1] == x);
                }
            }
            if before.contains(x) {
                let t = choose|t: int| 0 <= t < before.len() && before[t] == x;
                if t < k {
                    assert(v@[t] == x);
                } else {
                    assert(v@[t + 1] == x);
                }
            }
            if x == e {
                assert(v@[k as int] == e);
            }
        }
    }
}

/// The vertices marked in `mask`.
pub open spec fn masked(mask: Seq<bool>) -> spec_fn(int) -> bool {
    |v: int| 0 <= v < mask.len() && mask[v]
}

/// Builds the decomposition from a class assignment.
fn assemble(
    projection: SccProjection,
    adj: &Vec<Vec<usize>>,
    mask: &Vec<bool>,
    comp: &Vec<usize>,
    reps: &Vec<usize>,
    Ghost(rel): Ghost<spec_fn(int, int) -> bool>,
) -> (d: SccDecomposition)
    requires
        adj@.len() <= u32::MAX,
        realises(adj@, rel),
        mask@.len() == adj@.len(),
        forall|a: int, b: int| #[trigger] step(adj@, a, b) ==> mask@[a] && mask@[b],
        classes_ok(adj@, mask@, comp@, reps@),
    ensures
        d.projection == projection,
        is_scc_decomposition(d, adj@.len() as int, masked(mask@), rel),
{
    let n = adj.len();
    let count = reps.len();
    // Members of each class, in increasing order.
    let mut lists: Vec<Vec<NodeId>> = Vec::new();
    let mut c: usize = 0;
    while c < count
        invariant
            c <= count,
            lists@.len() == c,
            forall|j: int| 0 <= j < c ==> (#[trigger] lists@[j])@.len() == 0,
        decreases count - c,
    {
        lists.push(Vec::new());
        c = c + 1;
    }
    let mut u: usize = 0;
    while u < n
        invariant
            n == adj@.len(),
            n <= u32::MAX,
            count == reps@.len(),
            mask@.len() == n,
            classes_ok(adj@, mask@, comp@, reps@),
            lists@.len() == count,
            u <= n,
            forall|c: int, i: int, j: int| 0 <= c < count && 0 <= i < j < lists@[c]@.len() ==>
                (#[trigger] lists@[c]@[i]).0 < (#[trigger] lists@[c]@[j]).0,
            forall|c: int, i: int| 0 <= c < count && 0 <= i < lists@[c]@.len() ==>
                (#[trigger] lists@[c]@[i]).0 < u && mask@[lists@[c]@[i].0 as int] && comp@[lists@[c]@[i].0 as int] == c,
            forall|x: int| 0 <= x < u && mask@[x] ==> #[trigger] lists@[comp@[x] as int]@.contains(NodeId(x as u32)),
        decreases n - u,
    {
        if mask[u] {
            let cu = comp[u];
            let ghost prev = lists@;
            let mut row: Vec<NodeId> = Vec::new();
            lists.set_and_swap(cu, &mut row);
            row.push(NodeId(u as u32));
            lists.set_and_swap(cu, &mut row);
            proof {
                assert(lists@[cu as int]@ == prev[cu as int]@.push(NodeId(u as u32)));
                assert forall|c: int, i: int, j: int| 0 <= c < count && 0 <= i < j < lists@[c]@.len() implies
                    (#[trigger] lists@[c]@[i]).0 < (#[trigger] lists@[c]@[j]).0 by {
                    if c == cu && j == prev[c]@.len() {
                        assert(lists@[c]@[i] == prev[c]@[i]);
                    } else {
                        assert(lists@[c]@[i] == prev[c]@[i] && lists@[c]@[j] == prev[c]@[j]);
                    }
                }
                assert forall|c: int, i: int| 0 <= c < count && 0 <= i < lists@[c]@.len() implies
                    (#[trigger] lists@[c]@[i]).0 < u + 1 && mask@[lists@[c]@[i].0 as int] && comp@[lists@[c]@[i].0 as int] == c by {
                    if !(c == cu && i == prev[c]@.len()) {
                        assert(lists@[c]@[i] == prev[c]@[i]);
                    }
                }
                assert forall|x: int| 0 <= x < u + 1 && mask@[x] implies #[trigger] lists@[comp@[x] as int]@.contains(NodeId(x as u32)) by {
                    if x == u {
                        assert(lists@[cu as int]@[prev[cu as int]@.len() as int] == NodeId(x as u32));
                    } else {
                        assert(prev[comp@[x] as int]@.contains(NodeId(x as u32)));
                        let t = choose|t: int| 0 <= t < prev[comp@[x] as int]@.len() && prev[comp@[x] as int]@[t] == NodeId(x as u32);
                        assert(lists@[comp@[x] as int]@[t] == NodeId(x as u32));
                    }
                }
            }
        }
        u = u + 1;
    }
    // Membership in a list is membership in a class.
    proof {
        assert forall|c: int, x: int| 0 <= c < count && 0 <= x < n implies
            (#[trigger] lists@[c]@.contains(NodeId(x as u32)) <==> (mask@[x] && comp@[x] == c)) by {
            if lists@[c]@.contains(NodeId(x as u32)) {
                let t = choose|t: int| 0 <= t < lists@[c]@.len() && lists@[c]@[t] == NodeId(x as u32);
                assert(lists@[c]@[t].0 as int == x);
            }
            if mask@[x] && comp@[x] == c {
                assert(lists@[comp@[x] as int]@.contains(NodeId(x as u32)));
            }
        }
    }
    // Components.
    let mut components: Vec<SccComponent> = Vec::new();
    let mut c: usize = 0;
    while c < count
        invariant
            n == adj@.len(),
            n <= u32::MAX,
            count == reps@.len(),
            mask@.len() == n,
            realises(adj@, rel),
            classes_ok(adj@, mask@, comp@, reps@),
            lists@.len() == count,
            c <= count,
            components@.len() == c,
            forall|k: int, i: int, j: int| c <= k < count && 0 <= i < j < lists@[k]@.len() ==>
                (#[trigger] lists@[k]@[i]).0 < (#[trigger] lists@[k]@[j]).0,
            forall|k: int, i: int| c <= k < count && 0 <= i < lists@[k]@.len() ==> (#[trigger] lists@[k]@[i]).0 < n,
            forall|k: int, x: int| c <= k < count && 0 <= x < n ==>
                (#[trigger] lists@[k]@.contains(NodeId(x as u32)) <==> (mask@[x] && comp@[x] == k)),
            forall|k: int| 0 <= k < c ==> (#[trigger] components@[k]).id == k && components@[k].nodes@.len() > 0,
            forall|k: int, i: int, j: int| 0 <= k < c && 0 <= i < j < components@[k].nodes@.len() ==>
                (#[trigger] components@[k].nodes@[i]).0 < (#[trigger] components@[k].nodes@[j]).0,
            forall|k: int, i: int| 0 <= k < c && 0 <= i < components@[k].nodes@.len() ==> (#[trigger] components@[k].nodes@[i]).0 < n,
            forall|k: int, x: int| 0 <= k < c && 0 <= x < n ==>
                (#[trigger] components@[k].nodes@.contains(NodeId(x as u32)) <==> (mask@[x] && comp@[x] == k)),
            forall|k: int| 0 <= k < c ==> (#[trigger] components@[k]).nodes@[0].0 == reps@[k],
            forall|k: int| 0 <= k < c ==> ((#[trigger] components@[k]).cyclic <==>
                (components@[k].nodes@.len() > 1 || rel(components@[k].nodes@[0].0 as int, components@[k].nodes@[0].0 as int))),
        decreases count - c,
    {
        let mut nodes: Vec<NodeId> = Vec::new();
        lists.set_and_swap(c, &mut nodes);
        proof {
            let r = reps@[c as int] as int;
            assert(mask@[r] && comp@[r] == c);
            assert(nodes@.contains(NodeId(r as u32)));
            let t = choose|t: int| 0 <= t < nodes@.len() && nodes@[t] == NodeId(r as u32);
            let x = nodes@[0].0 as int;
            assert(nodes@.contains(NodeId(x as u32)));
            assert(mask@[x] && comp@[x] == c);
            assert(reps@[comp@[x] as int] <= x);
            if t > 0 {
                assert(nodes@[0].0 < nodes@[t].0);
            }
            assert(nodes@[0].0 == reps@[c as int]);
        }
        let first = nodes[0].0 as usize;
        let has_loop = row_has(&adj[first], first);
        let cyclic = nodes.len() > 1 || has_loop;
        proof {
            assert(step(adj@, first as int, first as int) <==> rel(first as int, first as int));
            if has_loop {
                let k = choose|k: int| 0 <= k < adj@[first as int]@.len() && adj@[first as int]@[k] == first;
                assert(adj@[first as int]@[k] as int == first as int);
            }
        }
        components.push(SccComponent { id: c, nodes, cyclic });
        proof {
            assert forall|k: int, x: int| c < k < count && 0 <= x < n implies
                (#[trigger] lists@[k]@.contains(NodeId(x as u32)) <==> (mask@[x] && comp@[x] == k)) by {
            }
        }
        c = c + 1;
    }
    d_rest(projection, adj, mask, comp, reps, components, Ghost(rel))
}

/// The arcs seen so far by the condensation scan: all arcs out of vertices
/// below `u`, and the first `k` successors of `u`.
pub open spec fn arc_seen(adj: Seq<Vec<usize>>, u: int, k: int, a: int, j: int) -> bool {
    0 <= a < adj.len() && 0 <= j < adj[a]@.len() && (a < u || (a == u && j < k))
}

/// Finishes [`assemble`]: the node index and the condensation.
fn d_rest(
    projection: SccProjection,
    adj: &Vec<Vec<usize>>,
    mask: &Vec<bool>,
    comp: &Vec<usize>,
    reps: &Vec<usize>,
    components: Vec<SccComponent>,
    Ghost(rel): Ghost<spec_fn(int, int) -> bool>,
) -> (d: SccDecomposition)
    requires
        adj@.len() <= u32::MAX,
        realises(adj@, rel),
        mask@.len() == adj@.len(),
        forall|a: int, b: int| #[trigger] step(adj@, a, b) ==> mask@[a] && mask@[b],
        classes_ok(adj@, mask@, comp@, reps@),
        components@.len() == reps@.len(),
        forall|k: int| 0 <= k < components@.len() ==> (#[trigger] components@[k]).id == k && components@[k].nodes@.len() > 0,
        forall|k: int, i: int, j: int| 0 <= k < components@.len() && 0 <= i < j < components@[k].nodes@.len() ==>
            (#[trigger] components@[k].nodes@[i]).0 < (#[trigger] components@[k].nodes@[j]).0,
        forall|k: int, i: int| 0 <= k < components@.len() && 0 <= i < components@[k].nodes@.len() ==>
            (#[trigger] components@[k].nodes@[i]).0 < adj@.len(),
        forall|k: int, x: int| 0 <= k < components@.len() && 0 <= x < adj@.len() ==>
            (#[trigger] components@[k].nodes@.contains(NodeId(x as u32)) <==> (mask@[x] && comp@[x] == k)),
        forall|k: int| 0 <= k < components@.len() ==> (#[trigger] components@[k]).nodes@[0].0 == reps@[k],
        forall|k: int| 0 <= k < components@.len() ==> ((#[trigger] components@[k]).cyclic <==>
            (components@[k].nodes@.len() > 1 || rel(components@[k].nodes@[0].0 as int, components@[k].nodes@[0].0 as int))),
    ensures
        d.projection == projection,
        is_scc_decomposition(d, adj@.len() as int, masked(mask@), rel),
{
    let n = adj.len();
    let ghost count = reps@.len();
    let mut by_node: Vec<(NodeId, usize)> = Vec::new();
    let mut u: usize = 0;
    while u < n
        invariant
            n == adj@.len(),
            n <= u32::MAX,
            mask@.len() == n,
            comp@.len() == n,
            u <= n,
            forall|i: int| 0 <= i < by_node@.len() ==> (#[trigger] by_node@[i]).0.0 < u,
            forall|i: int, j: int| 0 <= i < j < by_node@.len() ==> (#[trigger] by_node@[i]).0.0 < (#[trigger] by_node@[j]).0.0,
            forall|v: NodeId, c: usize| #[trigger] by_node@.contains((v, c)) <==>
                (v.0 < u && mask@[v.0 as int] && comp@[v.0 as int] == c),
        decreases n - u,
    {
        let ghost prev = by_node@;
        if mask[u] {
            by_node.push((NodeId(u as u32), comp[u]));
            proof {
                assert forall|v: NodeId, c: usize| #[trigger] by_node@.contains((v, c)) <==>
                    (v.0 < u + 1 && mask@[v.0 as int] && comp@[v.0 as int] == c) by {
                    if by_node@.contains((v, c)) {
                        let t = choose|t: int| 0 <= t < by_node@.len() && by_node@[t] == (v, c);
                        if t < prev.len() {
                            assert(prev[t] == (v, c));
                            assert(prev.contains((v, c)));
                        }
                    }
                    if v.0 < u + 1 && mask@[v.0 as int] && comp@[v.0 as int] == c {
                        if v.0 < u {
                            assert(prev.contains((v, c)));
                            let t = choose|t: int| 0 <= t < prev.len() && prev[t] == (v, c);
                            assert(by_node@[t] == (v, c));
                        } else {
                            assert(by_node@[prev.len() as int] == (v, c));
                        }
                    }
                }
            }
        } else {
            proof {
                assert forall|v: NodeId, c: usize| #[trigger] by_node@.contains((v, c)) <==>
                    (v.0 < u + 1 && mask@[v.0 as int] && comp@[v.0 as int] == c) by {
                    if v.0 < u + 1 && mask@[v.0 as int] && comp@[v.0 as int] == c {
                        assert(v.0 < u);
                    }
                }
            }
        }
        u = u + 1;
    }
    let mut cond: Vec<SccCondensationEdge> = Vec::new();
    let mut u: usize = 0;
    while u < n
        invariant
            n == adj@.len(),
            adj_ok(adj@),
            mask@.len() == n,
            classes_ok(adj@, mask@, comp@, reps@),
            forall|a: int, b: int| #[trigger] step(adj@, a, b) ==> mask@[a] && mask@[b],
            u <= n,
            forall|i: int, j: int| 0 <= i < j < cond@.len() ==> edge_lt(#[trigger] cond@[i], #[trigger] cond@[j]),
            forall|e: SccCondensationEdge| #[trigger] cond@.contains(e) <==> (e.source != e.target &&
                exists|a: int, j: int| #[trigger] arc_seen(adj@, u as int, 0, a, j)
                    && comp@[a] == e.source && comp@[adj@[a]@[j] as int] == e.target),
        decreases n - u,
    {
        let row = &adj[u];
        let mut k: usize = 0;
        while k < row.len()
            invariant
                n == adj@.len(),
                adj_ok(adj@),
                u < n,
                row@ == adj@[u as int]@,
                k <= row@.len(),
                mask@.len() == n,
                classes_ok(adj@, mask@, comp@, reps@),
                forall|a: int, b: int| #[trigger] step(adj@, a, b) ==> mask@[a] && mask@[b],
                forall|i: int, j: int| 0 <= i < j < cond@.len() ==> edge_lt(#[trigger] cond@[i], #[trigger] cond@[j]),
                forall|e: SccCondensationEdge| #[trigger] cond@.contains(e) <==> (e.source != e.target &&
                    exists|a: int, j: int| #[trigger] arc_seen(adj@, u as int, k as int, a, j)
                        && comp@[a] == e.source && comp@[adj@[a]@[j] as int] == e.target),
            decreases row@.len() - k,
        {
            let w = row[k];
            let cu = comp[u];
            let cw = comp[w];
            let ghost before = cond@;
            if cu != cw {
                insert_sorted(&mut cond, SccCondensationEdge { source: cu, target: cw });
            }
            proof {
                assert forall|e: SccCondensationEdge| #[trigger] cond@.contains(e) <==> (e.source != e.target &&
                    exists|a: int, j: int| #[trigger] arc_seen(adj@, u as int, k + 1, a, j)
                        && comp@[a] == e.source && comp@[adj@[a]@[j] as int] == e.target) by {
                    if exists|a: int, j: int| #[trigger] arc_seen(adj@, u as int, k + 1, a, j)
                        && comp@[a] == e.source && comp@[adj@[a]@[j] as int] == e.target {
                        let (a, j) = choose|a: int, j: int| #[trigger] arc_seen(adj@, u as int, k + 1, a, j)
                            && comp@[a] == e.source && comp@[adj@[a]@[j] as int] == e.target;
                        if !(a == u && j == k) {
                            assert(arc_seen(adj@, u as int, k as int, a, j));
                        }
                    }
                    if before.contains(e) {
                        let (a, j) = choose|a: int, j: int| #[trigger] arc_seen(adj@, u as int, k as int, a, j)
                            && comp@[a] == e.source && comp@[adj@[a]@[j] as int] == e.target;
                        assert(arc_seen(adj@, u as int, k + 1, a, j));
                    }
                    if cu != cw && e == (SccCondensationEdge { source: cu, target: cw }) {
                        assert(arc_seen(adj@, u as int, k + 1, u as int, k as int));
                    }
                }
            }
            k = k + 1;
        }
        proof {
            assert forall|e: SccCondensationEdge| #[trigger] cond@.contains(e) <==> (e.source != e.target &&
                exists|a: int, j: int| #[trigger] arc_seen(adj@, u + 1, 0, a, j)
                    && comp@[a] == e.source && comp@[adj@[a]@[j] as int] == e.target) by {
                if exists|a: int, j: int| #[trigger] arc_seen(adj@, u + 1, 0, a, j)
                    && comp@[a] == e.source && comp@[adj@[a]@[j] as int] == e.target {
                    let (a, j) = choose|a: int, j: int| #[trigger] arc_seen(adj@, u + 1, 0, a, j)
                        && comp@[a] == e.source && comp@[adj@[a]@[j] as int] == e.target;
                    assert(arc_seen(adj@, u as int, row@.len() as int, a, j));
                }
                if cond@.contains(e) {
                    let (a, j) = choose|a: int, j: int| #[trigger] arc_seen(adj@, u as int, row@.len() as int, a, j)
                        && comp@[a] == e.source && comp@[adj@[a]@[j] as int] == e.target;
                    assert(arc_seen(adj@, u + 1, 0, a, j));
                }
            }
        }
        u = u + 1;
    }
    let d = SccDecomposition { projection, components, component_by_node: by_node, condensation_edges: cond };
    proof {
        let nn = n as int;
        // Membership in the result is membership in a class.
        assert forall|c: int, v: NodeId| #[trigger] member(d, c, v) <==>
            (0 <= c < count && v.0 < n && mask@[v.0 as int] && comp@[v.0 as int] == c) by {
            if member(d, c, v) {
                let t = choose|t: int| 0 <= t < d.components@[c].nodes@.len() && d.components@[c].nodes@[t] == v;
                assert(v.0 < n);
                assert(NodeId(v.0 as int as u32) == v);
                assert(d.components@[c].nodes@.contains(NodeId(v.0 as int as u32)));
            }
            if 0 <= c < count && v.0 < n && mask@[v.0 as int] && comp@[v.0 as int] == c {
                assert(NodeId(v.0 as int as u32) == v);
                assert(d.components@[c].nodes@.contains(NodeId(v.0 as int as u32)));
            }
        }
        assert forall|c1: int, c2: int| 0 <= c1 < c2 < d.components@.len() implies
            (#[trigger] d.components@[c1].nodes@[0]).0 < (#[trigger] d.components@[c2].nodes@[0]).0 by {
            assert(reps@[c1] < reps@[c2]);
        }
        assert forall|v: int| 0 <= v < nn && #[trigger] masked(mask@)(v) implies
            exists|c: int| #[trigger] member(d, c, NodeId(v as u32)) by {
            assert(member(d, comp@[v] as int, NodeId(v as u32)));
        }
        assert forall|c: int, a: NodeId, b: NodeId| #[trigger] member(d, c, a) implies
            (#[trigger] member(d, c, b) <==> 0 <= b.0 < nn && masked(mask@)(b.0 as int) && mutual(rel, nn, a.0 as int, b.0 as int)) by {
            lemma_realises_reaches(adj@, rel, a.0 as int, b.0 as int);
            lemma_realises_reaches(adj@, rel, b.0 as int, a.0 as int);
            if 0 <= b.0 < nn && mask@[b.0 as int] {
                assert(comp@[a.0 as int] == comp@[b.0 as int] <==> adj_mutual(adj@, a.0 as int, b.0 as int));
            }
        }
        assert forall|v: NodeId, c: usize| #[trigger] d.component_by_node@.contains((v, c)) <==> member(d, c as int, v) by {
        }
        assert forall|e: SccCondensationEdge| #[trigger] d.condensation_edges@.contains(e) <==> (e.source != e.target
            && exists|a: NodeId, b: NodeId| #[trigger] member(d, e.source as int, a)
                && #[trigger] member(d, e.target as int, b) && rel(a.0 as int, b.0 as int)) by {
            if cond@.contains(e) {
                let (a, j) = choose|a: int, j: int| #[trigger] arc_seen(adj@, nn, 0, a, j)
                    && comp@[a] == e.source && comp@[adj@[a]@[j] as int] == e.target;
                let b = adj@[a]@[j] as int;
                assert(step(adj@, a, b));
                assert(mask@[a] && mask@[b]);
                assert(rel(a, b));
                assert(member(d, e.source as int, NodeId(a as u32)));
                assert(member(d, e.target as int, NodeId(b as u32)));
            }
            if e.source != e.target && exists|a: NodeId, b: NodeId| #[trigger] member(d, e.source as int, a)
                && #[trigger] member(d, e.target as int, b) && rel(a.0 as int, b.0 as int) {
                let (a, b) = choose|a: NodeId, b: NodeId| #[trigger] member(d, e.source as int, a)
                    && #[trigger] member(d, e.target as int, b) && rel(a.0 as int, b.0 as int);
                assert(step(adj@, a.0 as int, b.0 as int));
                let j = choose|j: int| 0 <= j < adj@[a.0 as int]@.len() && adj@[a.0 as int]@[j] as int == b.0 as int;
                assert(arc_seen(adj@, nn, 0, a.0 as int, j));
            }
        }
    }
    d
}

// ---------------------------------------------------------------------------
// Decompositions
// ---------------------------------------------------------------------------

/// The successor relation of adjacency lists.
pub open spec fn adj_rel(adj: Seq<Vec<usize>>) -> spec_fn(int, int) -> bool {
    |a: int, b: int| step(adj, a, b)
}

/// Decomposes the graph on the vertices marked in `mask` whose arcs are the
/// adjacency lists `adj` (which join marked vertices only).
pub fn decompose(projection: SccProjection, adj: &Vec<Vec<usize>>, mask: &Vec<bool>) -> (d: SccDecomposition)
    requires
        adj_ok(adj@),
        adj@.len() <= u32::MAX,
        mask@.len() == adj@.len(),
        forall|a: int, b: int| #[trigger] step(adj@, a, b) ==> mask@[a] && mask@[b],
    ensures
        d.projection == projection,
        is_scc_decomposition(d, adj@.len() as int, masked(mask@), adj_rel(adj@)),
{
    let (comp, reps) = classes(adj, mask);
    assemble(projection, adj, mask, &comp, &reps, Ghost(adj_rel(adj@)))
}

/// Syntax-tree edges that stay inside one function: the child is not itself a function.
pub open spec fn scope_rel(g: CodePropertyGraph) -> spec_fn(int, int) -> bool {
    |a: int, b: int| overlay_rel(g, Overlay::Ast)(a, b) && !is_function_kind(g.nodes_view()[b].kind)
}

/// `v` lies in the scope of function `f`: `f` itself and the syntax below it,
/// not descending into nested functions.
pub open spec fn in_scope(g: CodePropertyGraph, f: NodeId, v: int) -> bool {
    rel_reaches(scope_rel(g), g.nodes_view().len() as int, f.0 as int, v)
}

/// Vertices of the control-flow projection of `f`: `f`, and the ends of the
/// control-flow edges that join two nodes of its scope.
pub open spec fn cfg_vertex(g: CodePropertyGraph, f: NodeId) -> spec_fn(int) -> bool {
    |v: int| 0 <= v < g.nodes_view().len() && (v == f.0 || exists|k: int| 0 <= k < g.edges_view().len()
        && (#[trigger] g.edges_view()[k]).kind is ControlFlow
        && in_scope(g, f, g.edges_view()[k].source.0 as int) && in_scope(g, f, g.edges_view()[k].target.0 as int)
        && (g.edges_view()[k].source.0 == v || g.edges_view()[k].target.0 == v))
}

/// Arcs of the control-flow projection of `f`: control-flow edges between its vertices.
pub open spec fn cfg_arc(g: CodePropertyGraph, f: NodeId) -> spec_fn(int, int) -> bool {
    |a: int, b: int| cfg_vertex(g, f)(a) && cfg_vertex(g, f)(b) && overlay_rel(g, Overlay::ControlFlow)(a, b)
}

/// Marks the function nodes.
fn function_mask(g: &CodePropertyGraph) -> (r: Vec<bool>)
    requires
        g.wf(),
    ensures
        r@.len() == g.nodes_view().len(),
        forall|v: int| 0 <= v < r@.len() ==> (r@[v] <==> is_function_kind(#[trigger] g.nodes_view()[v].kind)),
{
    let n = g.node_count();
    let mut r: Vec<bool> = Vec::new();
    let mut i: usize = 0;
    while i < n
        invariant
            g.wf(),
            n == g.nodes_view().len(),
            i <= n,
            r@.len() == i,
            forall|v: int| 0 <= v < i ==> (r@[v] <==> is_function_kind(#[trigger] g.nodes_view()[v].kind)),
        decreases n - i,
    {
        let node = g.node(NodeId(i as u32)).unwrap();
        let f = match &node.kind {
            CpgNodeKind::Function { .. } => true,
            _ => false,
        };
        r.push(f);
        i = i + 1;
    }
    r
}

/// Adjacency lists of the in-function syntax edges.
fn scope_adjacency(g: &CodePropertyGraph) -> (r: Vec<Vec<usize>>)
    requires
        g.wf(),
    ensures
        r@.len() == g.nodes_view().len(),
        realises(r@, scope_rel(*g)),
{
    let ast = overlay_adjacency(g, Overlay::Ast);
    let funcs = function_mask(g);
    let mut all: Vec<bool> = Vec::new();
    let mut keep: Vec<bool> = Vec::new();
    let mut i: usize = 0;
    while i < funcs.len()
        invariant
            i <= funcs@.len(),
            all@.len() == i,
            keep@.len() == i,
            forall|v: int| 0 <= v < i ==> all@[v] && (keep@[v] <==> !funcs@[v]),
        decreases funcs@.len() - i,
    {
        all.push(true);
        keep.push(!funcs[i]);
        i = i + 1;
    }
    let r = restrict(&ast, &all, &keep);
    proof {
        assert forall|a: int, b: int| 0 <= a < r@.len() && 0 <= b < r@.len() implies (step(r@, a, b) <==> #[trigger] scope_rel(*g)(a, b)) by {
        }
    }
    r
}

/// Decomposes one function's control-flow graph. Nested functions are
/// separate scopes; control-flow edges leaving the function's scope (a call
/// into another function) are not part of it; a function with no
/// control-flow edges is a single component.
pub fn control_flow_sccs(cpg: &CodePropertyGraph, function: NodeId) -> (r: Result<SccDecomposition, SccAnalysisError>)
    requires
        cpg.wf(),
    ensures
        !cpg.valid(function) ==> r == Err::<SccDecomposition, SccAnalysisError>(SccAnalysisError::UnknownNode(function)),
        cpg.valid(function) && !is_function_kind(cpg.at(function).kind)
            ==> r == Err::<SccDecomposition, SccAnalysisError>(SccAnalysisError::NotAFunction(function)),
        cpg.valid(function) && is_function_kind(cpg.at(function).kind) ==> (r matches Ok(d)
            && d.projection == (SccProjection::ControlFlow { function })
            && is_scc_decomposition(d, cpg.nodes_view().len() as int, cfg_vertex(*cpg, function), cfg_arc(*cpg, function))),
{
    match cpg.node(function) {
        None => { return Err(SccAnalysisError::UnknownNode(function)); },
        Some(node) => {
            if !matches!(node.kind, CpgNodeKind::Function { .. }) {
                return Err(SccAnalysisError::NotAFunction(function));
            }
        },
    }
    let ghost g = *cpg;
    let n = cpg.node_count();
    let sadj = scope_adjacency(cpg);
    let mut start: Vec<usize> = Vec::new();
    start.push(function.0 as usize);
    let scope = reachable(&sadj, &start);
    proof {
        assert forall|v: int| 0 <= v < n implies (scope@[v] <==> in_scope(g, function, v)) by {
            lemma_realises_reaches(sadj@, scope_rel(g), function.0 as int, v);
            if scope@[v] {
                let k = choose|k: int| 0 <= k < start@.len() && #[trigger] reaches(sadj@, start@[k] as int, v);
            }
            if in_scope(g, function, v) {
                assert(reaches(sadj@, start@[0] as int, v));
            }
        }
    }
    let mut mask: Vec<bool> = Vec::new();
    let mut i: usize = 0;
    while i < n
        invariant
            i <= n,
            mask@.len() == i,
            forall|v: int| 0 <= v < i ==> (mask@[v] <==> v == function.0),
        decreases n - i,
    {
        mask.push(i == function.0 as usize);
        i = i + 1;
    }
    let edges = cpg.edges();
    let mut k: usize = 0;
    while k < edges.len()
        invariant
            g == *cpg,
            cpg.wf(),
            n == g.nodes_view().len(),
            edges@ == g.edges_view(),
            scope@.len() == n,
            forall|v: int| 0 <= v < n ==> (scope@[v] <==> in_scope(g, function, v)),
            mask@.len() == n,
            k <= edges@.len(),
            forall|v: int| 0 <= v < n ==> (mask@[v] <==> (v == function.0 || exists|j: int| 0 <= j < k
                && (#[trigger] edges@[j]).kind is ControlFlow
                && in_scope(g, function, edges@[j].source.0 as int) && in_scope(g, function, edges@[j].target.0 as int)
                && (edges@[j].source.0 == v || edges@[j].target.0 == v))),
        decreases edges@.len() - k,
    {
        let e = edges[k];
        proof { assert(cpg.valid(g.edges_view()[k as int].source) && cpg.valid(g.edges_view()[k as int].target)); }
        let s = e.source.0 as usize;
        let t = e.target.0 as usize;
        let ghost prev = mask@;
        if e.kind.is_cfg() && scope[s] && scope[t] {
            mask.set(s, true);
            mask.set(t, true);
        }
        proof {
            assert forall|v: int| 0 <= v < n implies (mask@[v] <==> (v == function.0 || exists|j: int| 0 <= j < k + 1
                && (#[trigger] edges@[j]).kind is ControlFlow
                && in_scope(g, function, edges@[j].source.0 as int) && in_scope(g, function, edges@[j].target.0 as int)
                && (edges@[j].source.0 == v || edges@[j].target.0 == v))) by {
                if exists|j: int| 0 <= j < k + 1
                    && (#[trigger] edges@[j]).kind is ControlFlow
                    && in_scope(g, function, edges@[j].source.0 as int) && in_scope(g, function, edges@[j].target.0 as int)
                    && (edges@[j].source.0 == v || edges@[j].target.0 == v) {
                    let j = choose|j: int| 0 <= j < k + 1
                        && (#[trigger] edges@[j]).kind is ControlFlow
                        && in_scope(g, function, edges@[j].source.0 as int) && in_scope(g, function, edges@[j].target.0 as int)
                        && (edges@[j].source.0 == v || edges@[j].target.0 == v);
                    if j < k {
                        assert(prev[v]);
                    }
                }
            }
        }
        k = k + 1;
    }
    let cfg = overlay_adjacency(cpg, Overlay::ControlFlow);
    let adj = restrict(&cfg, &mask, &mask);
    proof {
        assert forall|v: int| #[trigger] masked(mask@)(v) == cfg_vertex(g, function)(v) by {}
        assert(masked(mask@) =~= cfg_vertex(g, function));
        assert forall|a: int, b: int| 0 <= a < adj@.len() && 0 <= b < adj@.len() implies (step(adj@, a, b) <==> #[trigger] cfg_arc(g, function)(a, b)) by {}
        assert forall|a: int, b: int| #[trigger] step(adj@, a, b) implies mask@[a] && mask@[b] by {
            let t = choose|t: int| 0 <= t < adj@[a]@.len() && adj@[a]@[t] as int == b;
            assert(adj@[a]@[t] < adj@.len());
        }
    }
    let (comp, reps) = classes(&adj, &mask);
    let d = assemble(SccProjection::ControlFlow { function }, &adj, &mask, &comp, &reps, Ghost(cfg_arc(g, function)));
    Ok(d)
}

/// Node `s` links to node `b`: a call at `s` resolved to `b`, or a call edge from `s` to `b`.
pub open spec fn call_link(g: CodePropertyGraph, s: int, b: int) -> bool {
    calls(g.nodes_view()[s].kind, NodeId(b as u32)) || overlay_rel(g, Overlay::Calls)(s, b)
}

/// The function nodes.
pub open spec fn function_vertex(g: CodePropertyGraph) -> spec_fn(int) -> bool {
    |v: int| 0 <= v < g.nodes_view().len() && is_function_kind(g.nodes_view()[v].kind)
}

/// Function `a` calls function `b`: some node in the scope of `a` links to `b`.
pub open spec fn call_arc(g: CodePropertyGraph) -> spec_fn(int, int) -> bool {
    |a: int, b: int| function_vertex(g)(a) && function_vertex(g)(b)
        && exists|s: int| 0 <= s < g.nodes_view().len() && in_scope(g, NodeId(a as u32), s) && #[trigger] call_link(g, s, b)
}

/// The resolved call target of a node, when it is a node below `n`.
fn target_row(kind: &CpgNodeKind, n: usize) -> (row: Vec<usize>)
    requires
        n <= u32::MAX,
    ensures
        forall|k: int| 0 <= k < row@.len() ==> (#[trigger] row@[k]) < n,
        forall|b: int| 0 <= b < n ==> (#[trigger] in_list(row@, b) <==> calls(*kind, NodeId(b as u32))),
{
    let mut row: Vec<usize> = Vec::new();
    if let CpgNodeKind::Call { target: Some(t), .. } = kind {
        if (t.0 as usize) < n {
            row.push(t.0 as usize);
        }
        proof {
            assert forall|b: int| 0 <= b < n implies (#[trigger] in_list(row@, b) <==> calls(*kind, NodeId(b as u32))) by {
                if calls(*kind, NodeId(b as u32)) {
                    assert(t.0 as int == b);
                    assert(row@[0] as int == b);
                }
                if in_list(row@, b) {
                    assert(row@[0] as int == b);
                    assert(NodeId(b as u32) == *t);
                }
            }
        }
    }
    row
}

/// Adjacency of resolved call targets recorded on call nodes.
fn target_adjacency(g: &CodePropertyGraph) -> (r: Vec<Vec<usize>>)
    requires
        g.wf(),
    ensures
        r@.len() == g.nodes_view().len(),
        adj_ok(r@),
        forall|s: int, b: int| 0 <= s < r@.len() && 0 <= b < r@.len() ==>
            (step(r@, s, b) <==> calls(g.nodes_view()[s].kind, NodeId(b as u32))),
{
    let n = g.node_count();
    let mut r: Vec<Vec<usize>> = Vec::new();
    let mut s: usize = 0;
    while s < n
        invariant
            g.wf(),
            n == g.nodes_view().len(),
            s <= n,
            r@.len() == s,
            forall|a: int, k: int| 0 <= a < s && 0 <= k < r@[a]@.len() ==> (#[trigger] r@[a]@[k]) < n,
            forall|a: int, b: int| 0 <= a < s && 0 <= b < n ==>
                (step(r@, a, b) <==> calls(g.nodes_view()[a].kind, NodeId(b as u32))),
        decreases n - s,
    {
        let node = g.node(NodeId(s as u32)).unwrap();
        let row = target_row(&node.kind, n);
        let ghost prev = r@;
        r.push(row);
        proof {
            assert forall|a: int, k: int| 0 <= a < s + 1 && 0 <= k < r@[a]@.len() implies (#[trigger] r@[a]@[k]) < n by {
                if a < s {
                    assert(r@[a] == r@.drop_last()[a]);
                }
            }
            assert forall|a: int, b: int| 0 <= a < s + 1 && 0 <= b < n implies
                (step(r@, a, b) <==> calls(g.nodes_view()[a].kind, NodeId(b as u32))) by {
                if a < s {
                    assert(r@[a] == prev[a]);
                    assert(step(prev, a, b) <==> step(r@, a, b));
                } else {
                    assert(r@[a]@ == row@);
                    if calls(g.nodes_view()[a].kind, NodeId(b as u32)) {
                        assert(in_list(row@, b));
                        let k = choose|k: int| 0 <= k < row@.len() && row@[k] as int == b;
                        assert(r@[a]@[k] as int == b);
                    }
                    if step(r@, a, b) {
                        let k = choose|k: int| 0 <= k < r@[a]@.len() && r@[a]@[k] as int == b;
                        assert(in_list(row@, b));
                    }
                }
            }
        }
        s = s + 1;
    }
    r
}

/// Decomposes the resolved call graph of the whole graph. Call sites count
/// for the function whose scope holds them (not for an enclosing function);
/// a call links two functions when the call node's resolved target, a
/// call-site edge or a control-flow call edge leads from a node in the
/// caller's scope to the callee.
pub fn call_graph_sccs(cpg: &CodePropertyGraph) -> (d: SccDecomposition)
    requires
        cpg.wf(),
    ensures
        d.projection == SccProjection::CallGraph,
        is_scc_decomposition(d, cpg.nodes_view().len() as int, function_vertex(*cpg), call_arc(*cpg)),
{
    let ghost g = *cpg;
    let n = cpg.node_count();
    let funcs = function_mask(cpg);
    let tadj = target_adjacency(cpg);
    let cadj = overlay_adjacency(cpg, Overlay::Calls);
    let links = union_adjacency(&tadj, &cadj);
    let mut all: Vec<bool> = Vec::new();
    let mut i: usize = 0;
    while i < n
        invariant
            i <= n,
            all@.len() == i,
            forall|v: int| 0 <= v < i ==> all@[v],
        decreases n - i,
    {
        all.push(true);
        i = i + 1;
    }
    let flinks = restrict(&links, &all, &funcs);
    let sadj = scope_adjacency(cpg);
    let mut adj: Vec<Vec<usize>> = Vec::new();
    let mut a: usize = 0;
    while a < n
        invariant
            g == *cpg,
            cpg.wf(),
            n == g.nodes_view().len(),
            funcs@.len() == n,
            forall|v: int| 0 <= v < n ==> (funcs@[v] <==> is_function_kind(#[trigger] g.nodes_view()[v].kind)),
            flinks@.len() == n,
            adj_ok(flinks@),
            forall|s: int, b: int| 0 <= s < n && 0 <= b < n ==> (step(flinks@, s, b) <==> (call_link(g, s, b) && funcs@[b])),
            sadj@.len() == n,
            realises(sadj@, scope_rel(g)),
            a <= n,
            adj@.len() == a,
            forall|x: int, k: int| 0 <= x < a && 0 <= k < adj@[x]@.len() ==> (#[trigger] adj@[x]@[k]) < n,
            forall|x: int, b: int| 0 <= x < a && 0 <= b < n ==> (step(adj@, x, b) <==> call_arc(g)(x, b)),
        decreases n - a,
    {
        let mut row: Vec<usize> = Vec::new();
        if funcs[a] {
            let mut start: Vec<usize> = Vec::new();
            start.push(a);
            let scope = reachable(&sadj, &start);
            row = gather(&flinks, &scope);
            proof {
                assert forall|s: int| 0 <= s < n implies (scope@[s] <==> in_scope(g, NodeId(a as u32), s)) by {
                    lemma_realises_reaches(sadj@, scope_rel(g), a as int, s);
                    if scope@[s] {
                        let k = choose|k: int| 0 <= k < start@.len() && #[trigger] reaches(sadj@, start@[k] as int, s);
                    }
                    if in_scope(g, NodeId(a as u32), s) {
                        assert(reaches(sadj@, start@[0] as int, s));
                    }
                }
                assert forall|b: int| 0 <= b < n implies (#[trigger] in_list(row@, b) <==> call_arc(g)(a as int, b)) by {
                    if in_list(row@, b) {
                        let s = choose|s: int| 0 <= s < n && scope@[s] && #[trigger] step(flinks@, s, b);
                        assert(call_link(g, s, b));
                    }
                    if call_arc(g)(a as int, b) {
                        let s = choose|s: int| 0 <= s < g.nodes_view().len() && in_scope(g, NodeId(a as u32), s) && #[trigger] call_link(g, s, b);
                        assert(step(flinks@, s, b));
                    }
                }
            }
        }
        proof {
            assert forall|b: int| 0 <= b < n implies (#[trigger] in_list(row@, b) <==> call_arc(g)(a as int, b)) by {
                if !funcs@[a as int] {
                    assert(row@.len() == 0);
                }
            }
        }
        let ghost prev = adj@;
        adj.push(row);
        proof {
            assert forall|x: int, k: int| 0 <= x < a + 1 && 0 <= k < adj@[x]@.len() implies (#[trigger] adj@[x]@[k]) < n by {
                if x < a {
                    assert(adj@[x] == adj@.drop_last()[x]);
                }
            }
            assert forall|x: int, b: int| 0 <= x < a + 1 && 0 <= b < n implies (step(adj@, x, b) <==> call_arc(g)(x, b)) by {
                if x < a {
                    assert(adj@[x] == prev[x]);
                    assert(step(prev, x, b) <==> step(adj@, x, b));
                } else {
                    assert(adj@[x]@ == row@);
                    if step(adj@, x, b) {
                        assert(in_list(row@, b));
                    }
                    if call_arc(g)(x, b) {
                        assert(in_list(row@, b));
                        let k = choose|k: int| 0 <= k < row@.len() && row@[k] as int == b;
                        assert(adj@[x]@[k] as int == b);
                    }
                }
            }
        }
        a = a + 1;
    }
    proof {
        assert forall|x: int, b: int| #[trigger] step(adj@, x, b) implies funcs@[x] && funcs@[b] by {
            let t = choose|t: int| 0 <= t < adj@[x]@.len() && adj@[x]@[t] as int == b;
            assert(adj@[x]@[t] < n);
        }
        assert forall|v: int| #[trigger] masked(funcs@)(v) == function_vertex(g)(v) by {}
        assert(masked(funcs@) =~= function_vertex(g));
        assert forall|x: int, b: int| 0 <= x < adj@.len() && 0 <= b < adj@.len() implies (step(adj@, x, b) <==> #[trigger] call_arc(g)(x, b)) by {}
    }
    let (comp, reps) = classes(&adj, &funcs);
    assemble(SccProjection::CallGraph, &adj, &funcs, &comp, &reps, Ghost(call_arc(g)))
}

} // verus!
