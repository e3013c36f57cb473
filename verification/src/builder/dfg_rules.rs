//! The data flow of a function, stated over the syntax tree: the
//! reaching-definitions sweep, and the edges each part of the data-flow pass
//! adds, in the order it adds them.
//!
//! The rules read node kinds, syntax children and the nodes below a
//! function, never data-flow edges; this is why running the pass again adds
//! nothing.

use vstd::prelude::*;
use crate::graph::{callers_of, function_ids, CodePropertyGraph, CpgEdge, CpgEdgeKind, CpgNodeKind, DfgEdgeKind, NodeId};
use crate::overlay::{below_ids, overlay_below, overlay_rel, picks, Overlay};
use super::cfg_rules::{ast_of, kind_at, lemma_select_head, Ast};
use super::cfg::kids;
use super::dfg::{conditional_region, default_dfg_config, ident_name, kinds_among, use_of_name, uses_among, DfgExtractorConfig};

verus! {

/// The state of the reaching-definitions sweep: the definitions reaching,
/// by name (each name once); the definition-use pairs found so far; the
/// nodes on the current descent.
#[verifier::ext_equal]
pub struct Sweep {
    pub env: Seq<(Seq<char>, Seq<NodeId>)>,
    pub pairs: Seq<(NodeId, NodeId)>,
    pub on_path: Seq<bool>,
}

/// The first position of name `x` in `e` at or after `i`.
pub open spec fn env_find(e: Seq<(Seq<char>, Seq<NodeId>)>, x: Seq<char>, i: int) -> Option<int>
    decreases e.len() - i,
{
    if i >= e.len() {
        None
    } else if e[i].0 == x {
        Some(i)
    } else {
        env_find(e, x, i + 1)
    }
}

/// `e` with `d` reaching for `x`: in place of the earlier definitions in
/// straight-line code, beside them (once) in conditional code. An empty name
/// records nothing.
pub open spec fn env_bind(e: Seq<(Seq<char>, Seq<NodeId>)>, x: Seq<char>, d: NodeId, conditional: bool)
    -> Seq<(Seq<char>, Seq<NodeId>)>
{
    if x.len() == 0 {
        e
    } else {
        match env_find(e, x, 0) {
            Some(i) => e.update(i, (x, if conditional {
                if e[i].1.contains(d) { e[i].1 } else { e[i].1.push(d) }
            } else {
                seq![d]
            })),
            None => e.push((x, seq![d])),
        }
    }
}

/// The definitions reaching for `x`.
pub open spec fn env_lookup(e: Seq<(Seq<char>, Seq<NodeId>)>, x: Seq<char>) -> Seq<NodeId> {
    match env_find(e, x, 0) {
        Some(i) => e[i].1,
        None => Seq::empty(),
    }
}

/// The first of `ch` from the `i`-th on that is an identifier spelled `x`.
pub open spec fn binder_in(a: Ast, ch: Seq<NodeId>, x: Seq<char>, i: int) -> Option<NodeId>
    decreases ch.len() - i,
{
    if i >= ch.len() {
        None
    } else if kind_at(a, ch[i]) matches Some(k) && ident_name(k) == Some(x) {
        Some(ch[i])
    } else {
        binder_in(a, ch, x, i + 1)
    }
}

/// The identifier a declaration of `x` at `node` declares: its first
/// identifier child spelled `x` (none for an empty name).
pub open spec fn binder_of(a: Ast, node: NodeId, x: Seq<char>) -> Option<NodeId> {
    if x.len() == 0 { None } else { binder_in(a, (a.children)(node), x, 0) }
}

/// The sweep through `node` and what it encloses. A node not in the graph,
/// already on the current descent, or reached with no depth left is skipped.
pub open spec fn sweep_node(a: Ast, node: NodeId, s: Sweep, conditional: bool, fuel: nat) -> Sweep
    decreases fuel, 0int, 0int,
{
    match kind_at(a, node) {
        None => s,
        Some(k) => {
            let i = node.0 as int;
            if s.on_path[i] || fuel == 0 {
                s
            } else {
                let o = sweep_kind(a, k, node, Sweep { env: s.env, pairs: s.pairs, on_path: s.on_path.update(i, true) },
                    conditional, (fuel - 1) as nat);
                Sweep { env: o.env, pairs: o.pairs, on_path: o.on_path.update(i, false) }
            }
        },
    }
}

/// The sweep through `node` of kind `k`: a declaration, parameter or
/// assignment binds after its children are swept; an identifier is paired
/// with every definition reaching it; any other node sweeps its children,
/// conditionally inside branch and loop bodies, twice for loops.
pub open spec fn sweep_kind(a: Ast, k: CpgNodeKind, node: NodeId, s: Sweep, conditional: bool, fuel: nat) -> Sweep
    decreases fuel, 3int, 0int,
{
    match k {
        CpgNodeKind::Variable { name, .. } => sweep_declaration(a, node, name@, s, conditional, fuel),
        CpgNodeKind::Parameter { name, .. } => sweep_declaration(a, node, name@, s, conditional, fuel),
        CpgNodeKind::Assignment { operator } => sweep_assignment(a, node, operator@, s, conditional, fuel),
        CpgNodeKind::Identifier { name, .. } => Sweep {
            env: s.env,
            pairs: s.pairs + env_lookup(s.env, name@).map_values(|d: NodeId| (d, node)),
            on_path: s.on_path,
        },
        _ => sweep_passes(a, (a.children)(node), 0, if k is While || k is For || k is Loop { 2 } else { 1 }, s,
            conditional || conditional_region(k), fuel),
    }
}

/// A declaration of `x`: its children except the declared identifier are
/// swept, then it binds `x`.
pub open spec fn sweep_declaration(a: Ast, node: NodeId, x: Seq<char>, s: Sweep, conditional: bool, fuel: nat) -> Sweep
    decreases fuel, 2int, 0int,
{
    let o = sweep_kids(a, (a.children)(node), 0, binder_of(a, node, x), false, s, conditional, fuel);
    Sweep { env: env_bind(o.env, x, node, conditional), pairs: o.pairs, on_path: o.on_path }
}

/// The name an assignment writes: its first child's, if that is an identifier.
pub open spec fn assigned_name(a: Ast, node: NodeId) -> Option<Seq<char>> {
    let ch = (a.children)(node);
    if ch.len() > 0 {
        match kind_at(a, ch[0]) {
            Some(k) => ident_name(k),
            None => None,
        }
    } else {
        None
    }
}

/// An assignment: its children are swept (all but the written identifier of
/// a plain `=`), then it binds the name it writes, if any.
pub open spec fn sweep_assignment(a: Ast, node: NodeId, operator: Seq<char>, s: Sweep, conditional: bool, fuel: nat) -> Sweep
    decreases fuel, 2int, 0int,
{
    let target = assigned_name(a, node);
    let o = sweep_kids(a, (a.children)(node), 0, None, target is Some && operator == "="@, s, conditional, fuel);
    match target {
        Some(x) => Sweep { env: env_bind(o.env, x, node, conditional), pairs: o.pairs, on_path: o.on_path },
        None => o,
    }
}

/// The children from the `k`-th on, each swept in turn, except `binder` and,
/// when `skip_first`, the first child.
pub open spec fn sweep_kids(a: Ast, ch: Seq<NodeId>, k: int, binder: Option<NodeId>, skip_first: bool, s: Sweep,
    conditional: bool, fuel: nat) -> Sweep
    decreases fuel, 1int, ch.len() - k,
{
    if k >= ch.len() {
        s
    } else {
        let skip = binder == Some(ch[k]) || (k == 0 && skip_first);
        sweep_kids(a, ch, k + 1, binder, skip_first, if skip { s } else { sweep_node(a, ch[k], s, conditional, fuel) },
            conditional, fuel)
    }
}

/// The children swept in order, `passes - p` more times.
pub open spec fn sweep_passes(a: Ast, ch: Seq<NodeId>, p: int, passes: int, s: Sweep, conditional: bool, fuel: nat) -> Sweep
    decreases fuel, 2int, passes - p,
{
    if p >= passes {
        s
    } else {
        sweep_passes(a, ch, p + 1, passes, sweep_kids(a, ch, 0, None, false, s, conditional, fuel), conditional, fuel)
    }
}

/// The state the sweep of function `f` starts from: nothing reaching,
/// nothing paired, `f` itself on the descent.
pub open spec fn start_sweep(n: nat, f: NodeId) -> Sweep {
    Sweep { env: Seq::empty(), pairs: Seq::empty(), on_path: Seq::new(n, |i: int| i == f.0 as int) }
}

/// The definition-use pairs of function `f`: its children swept in order,
/// with as much depth as there are nodes.
pub open spec fn def_use_pairs(a: Ast, f: NodeId) -> Seq<(NodeId, NodeId)> {
    sweep_kids(a, (a.children)(f), 0, None, false, start_sweep(a.nodes.len(), f), false, a.nodes.len()).pairs
}

/// A data-flow edge.
pub open spec fn dfg_edge(a: NodeId, b: NodeId, k: DfgEdgeKind) -> CpgEdge {
    CpgEdge { source: a, target: b, kind: CpgEdgeKind::DataFlow(k) }
}

/// A data-flow edge labelled `k` from `source` to each of `targets`.
pub open spec fn dfg_fan(source: NodeId, targets: Seq<NodeId>, k: DfgEdgeKind) -> Seq<CpgEdge> {
    targets.map_values(|t: NodeId| dfg_edge(source, t, k))
}

/// The def-use edges of the pairs, in order; a node paired with itself is left out.
pub open spec fn pair_edges(p: Seq<(NodeId, NodeId)>) -> Seq<CpgEdge>
    decreases p.len(),
{
    if p.len() == 0 {
        Seq::empty()
    } else {
        pair_edges(p.drop_last()) + if p.last().0 != p.last().1 {
            seq![dfg_edge(p.last().0, p.last().1, DfgEdgeKind::DefUse)]
        } else {
            Seq::empty()
        }
    }
}

/// The parameters among `s`, in order.
pub open spec fn params_in(a: Ast, s: Seq<NodeId>) -> Seq<NodeId>
    decreases s.len(),
{
    if s.len() == 0 {
        Seq::empty()
    } else {
        params_in(a, s.drop_last()) + if kind_at(a, s.last()) matches Some(CpgNodeKind::Parameter { .. }) {
            seq![s.last()]
        } else {
            Seq::empty()
        }
    }
}

/// The elements of `s` other than `x` and than `b` where there is one, in order.
pub open spec fn others(s: Seq<NodeId>, x: NodeId, b: Option<NodeId>) -> Seq<NodeId>
    decreases s.len(),
{
    if s.len() == 0 {
        Seq::empty()
    } else {
        others(s.drop_last(), x, b) + if s.last() != x && b != Some(s.last()) { seq![s.last()] } else { Seq::empty() }
    }
}

/// The first `upto` arguments flow to the parameters at their positions
/// (as far as there are arguments).
pub open spec fn arg_edges(args: Seq<NodeId>, params: Seq<NodeId>, upto: int) -> Seq<CpgEdge>
    decreases upto,
{
    if upto <= 0 {
        Seq::empty()
    } else {
        arg_edges(args, params, upto - 1) + if upto - 1 < args.len() {
            seq![dfg_edge(args[upto - 1], params[upto - 1], DfgEdgeKind::Parameter)]
        } else {
            Seq::empty()
        }
    }
}

/// For each call of `cs` in turn, its arguments flow to the parameters.
pub open spec fn caller_edges(a: Ast, cs: Seq<NodeId>, params: Seq<NodeId>) -> Seq<CpgEdge>
    decreases cs.len(),
{
    if cs.len() == 0 {
        Seq::empty()
    } else {
        caller_edges(a, cs.drop_last(), params) + arg_edges((a.children)(cs.last()), params, params.len() as int)
    }
}

/// `v` is a use of `x`: an identifier of that name other than an
/// assignment's written target.
pub open spec fn is_use_of(a: Ast, v: NodeId, x: Seq<char>) -> bool {
    &&& (v.0 as int) < a.nodes.len()
    &&& ident_name(a.nodes[v.0 as int].kind) == Some(x)
    &&& !({
        &&& a.nodes[v.0 as int].parent matches Some(p)
        &&& (p.0 as int) < a.nodes.len()
        &&& a.nodes[p.0 as int].kind is Assignment
        &&& (a.children)(p).len() > 0
        &&& (a.children)(p)[0] == v
    })
}

/// The uses of `x` among `s`, in order.
pub open spec fn uses_in(a: Ast, s: Seq<NodeId>, x: Seq<char>) -> Seq<NodeId> {
    s.filter(|v: NodeId| is_use_of(a, v, x))
}

/// The nodes of `s` whose kind satisfies `p`, in order.
pub open spec fn of_kind(a: Ast, s: Seq<NodeId>, p: spec_fn(CpgNodeKind) -> bool) -> Seq<NodeId> {
    s.filter(|v: NodeId| (v.0 as int) < a.nodes.len() && p(a.nodes[v.0 as int].kind))
}

/// The name a node declares, if it is a node.
pub open spec fn declared_name(a: Ast, v: NodeId) -> Option<Seq<char>> {
    if (v.0 as int) < a.nodes.len() { a.nodes[v.0 as int].spec_name() } else { None }
}

/// Each parameter of `ps` in turn reaches every use of its name below the
/// function (`below`), other than itself and its own name (the identifier
/// that binds it, a definition site rather than a use).
pub open spec fn param_use_edges(a: Ast, below: Seq<NodeId>, ps: Seq<NodeId>) -> Seq<CpgEdge>
    decreases ps.len(),
{
    if ps.len() == 0 {
        Seq::empty()
    } else {
        let p = ps.last();
        param_use_edges(a, below, ps.drop_last()) + match declared_name(a, p) {
            Some(x) => dfg_fan(p, others(uses_in(a, below, x), p, binder_of(a, p, x)), DfgEdgeKind::DefUse),
            None => Seq::empty(),
        }
    }
}

/// The parameter edges of function `f`: arguments of each call of `f` to
/// the parameters, then each parameter to the uses of its name.
pub open spec fn param_edges(a: Ast, below: Seq<NodeId>, f: NodeId) -> Seq<CpgEdge> {
    let ps = params_in(a, (a.children)(f));
    caller_edges(a, callers_of(a.nodes, f, a.nodes.len() as int), ps) + param_use_edges(a, below, ps)
}

/// For each return among `ds` that has a value, in turn, the value flows
/// to every call of `cs`.
pub open spec fn return_edges(a: Ast, ds: Seq<NodeId>, cs: Seq<NodeId>) -> Seq<CpgEdge>
    decreases ds.len(),
{
    if ds.len() == 0 {
        Seq::empty()
    } else {
        let d = ds.last();
        return_edges(a, ds.drop_last(), cs) + if kind_at(a, d) matches Some(CpgNodeKind::Return) && (a.children)(d).len() > 0 {
            dfg_fan((a.children)(d)[0], cs, DfgEdgeKind::ReturnValue)
        } else {
            Seq::empty()
        }
    }
}

/// Each member access of `ms` in turn reads its object (its first child).
pub open spec fn member_edges(a: Ast, ms: Seq<NodeId>) -> Seq<CpgEdge>
    decreases ms.len(),
{
    if ms.len() == 0 {
        Seq::empty()
    } else {
        let v = ms.last();
        member_edges(a, ms.drop_last()) + if (a.children)(v).len() > 0 {
            seq![dfg_edge((a.children)(v)[0], v, DfgEdgeKind::FieldRead)]
        } else {
            Seq::empty()
        }
    }
}

/// Each indexed access of `xs` in turn reads its array (its first child)
/// and depends on its index (its second).
pub open spec fn index_edges(a: Ast, xs: Seq<NodeId>) -> Seq<CpgEdge>
    decreases xs.len(),
{
    if xs.len() == 0 {
        Seq::empty()
    } else {
        let v = xs.last();
        index_edges(a, xs.drop_last()) + if (a.children)(v).len() >= 2 {
            seq![dfg_edge((a.children)(v)[0], v, DfgEdgeKind::IndexRead),
                dfg_edge((a.children)(v)[1], v, DfgEdgeKind::DataDependency)]
        } else {
            Seq::empty()
        }
    }
}

/// The data-flow edges of function `f`, in order, given the nodes `below`
/// it: the def-use edges of the sweep, then as the options ask the
/// parameter edges, the returned-value edges, and the member and index read
/// edges.
pub open spec fn function_dfg(cfg: DfgExtractorConfig, a: Ast, below: Seq<NodeId>, f: NodeId) -> Seq<CpgEdge> {
    pair_edges(def_use_pairs(a, f))
        + (if cfg.include_parameters { param_edges(a, below, f) } else { Seq::empty() })
        + (if cfg.include_return_values {
            return_edges(a, below, callers_of(a.nodes, f, a.nodes.len() as int))
        } else {
            Seq::empty()
        })
        + (if cfg.include_field_access {
            member_edges(a, of_kind(a, below, |k: CpgNodeKind| k is MemberAccess))
                + index_edges(a, of_kind(a, below, |k: CpgNodeKind| k is IndexAccess))
        } else {
            Seq::empty()
        })
}

/// The nodes below each node of `g`.
pub open spec fn subtrees(g: &CodePropertyGraph) -> spec_fn(NodeId) -> Seq<NodeId> {
    |f: NodeId| below_ids(*g, f, g.nodes_view().len() as int)
}

/// The data-flow edges of the functions `fs`, one function after the other.
pub open spec fn functions_dfg(cfg: DfgExtractorConfig, a: Ast, below: spec_fn(NodeId) -> Seq<NodeId>, fs: Seq<NodeId>)
    -> Seq<CpgEdge>
    decreases fs.len(),
{
    if fs.len() == 0 {
        Seq::empty()
    } else {
        functions_dfg(cfg, a, below, fs.drop_last()) + function_dfg(cfg, a, below(fs.last()), fs.last())
    }
}

/// `base` with each edge of `es` between nodes below `n` appended in turn,
/// unless already there.
pub open spec fn with_edges(base: Seq<CpgEdge>, es: Seq<CpgEdge>, n: nat) -> Seq<CpgEdge>
    decreases es.len(),
{
    if es.len() == 0 {
        base
    } else {
        let b = with_edges(base, es.drop_last(), n);
        let e = es.last();
        if (e.source.0 as int) < n && (e.target.0 as int) < n && !b.contains(e) { b.push(e) } else { b }
    }
}

/// What one run of the data-flow pass with options `cfg` makes of `old`:
/// the same nodes, entry and exit points; the edges of every function, in
/// node order, appended after `old`'s edges (each edge once, and only
/// between nodes of the graph); only data-flow edges are added.
pub open spec fn dfg_extracted(cfg: DfgExtractorConfig, old: &CodePropertyGraph, new: &CodePropertyGraph) -> bool {
    let n = old.nodes_view().len();
    &&& new.wf()
    &&& new.nodes_view() == old.nodes_view()
    &&& new.edges_view() == with_edges(old.edges_view(),
        functions_dfg(cfg, ast_of(old), subtrees(old), function_ids(old.nodes_view(), n as int)), n)
    &&& new.edges_view().len() >= old.edges_view().len()
    &&& new.edges_view().subrange(0, old.edges_view().len() as int) == old.edges_view()
    &&& forall|j: int| old.edges_view().len() <= j < new.edges_view().len() ==> (#[trigger] new.edges_view()[j]).kind.spec_is_dfg()
    &&& new.entries_view() == old.entries_view()
    &&& new.exits_view() == old.exits_view()
}

/// Running the data-flow pass on its own result changes nothing: no edge
/// is added the second time.
pub proof fn law_dfg_extract_idempotent(cfg: DfgExtractorConfig, g0: &CodePropertyGraph, g1: &CodePropertyGraph,
    g2: &CodePropertyGraph)
    requires
        dfg_extracted(cfg, g0, g1),
        dfg_extracted(cfg, g1, g2),
    ensures
        g2.edges_view() == g1.edges_view(),
{
    let n = g0.nodes_view().len();
    let fs = function_ids(g0.nodes_view(), n as int);
    lemma_syntax_kept(g0, g1);
    let es = functions_dfg(cfg, ast_of(g0), subtrees(g0), fs);
    lemma_with_edges_covers(g0.edges_view(), es, n);
    lemma_with_edges_noop(g1.edges_view(), es, n);
}

/// Appending edges that are not syntax-tree edges leaves the syntax tree and
/// the nodes below each node as they were.
pub proof fn lemma_syntax_kept(old: &CodePropertyGraph, new: &CodePropertyGraph)
    requires
        new.nodes_view() == old.nodes_view(),
        new.edges_view().len() >= old.edges_view().len(),
        new.edges_view().subrange(0, old.edges_view().len() as int) == old.edges_view(),
        forall|j: int| old.edges_view().len() <= j < new.edges_view().len() ==> (#[trigger] new.edges_view()[j]).kind.spec_is_dfg(),
    ensures
        ast_of(new) == ast_of(old),
        subtrees(new) == subtrees(old),
{
    let m = old.edges_view().len() as int;
    assert forall|v: NodeId| kids(new, v) == kids(old, v) by {
        assert forall|j: int| m <= j < new.edges_view().len()
            implies (#[trigger] crate::graph::sel_ast_child(v)(new.edges_view()[j])) is None by {
            assert(new.edges_view()[j].kind.spec_is_dfg());
        }
        lemma_select_head(new.edges_view(), m, crate::graph::sel_ast_child(v));
    }
    assert(ast_of(new).children =~= ast_of(old).children);
    assert(ast_of(new) =~= ast_of(old));
    assert forall|x: int, y: int| #[trigger] overlay_rel(*new, Overlay::Ast)(x, y) == overlay_rel(*old, Overlay::Ast)(x, y) by {
        if overlay_rel(*new, Overlay::Ast)(x, y) {
            let k = choose|k: int| 0 <= k < new.edges_view().len() && #[trigger] picks(Overlay::Ast, new.edges_view()[k]) == Some((x, y));
            if k >= m {
                assert(new.edges_view()[k].kind.spec_is_dfg());
            }
            assert(new.edges_view()[k] == new.edges_view().subrange(0, m)[k]);
            assert(picks(Overlay::Ast, old.edges_view()[k]) == Some((x, y)));
        }
        if overlay_rel(*old, Overlay::Ast)(x, y) {
            let k = choose|k: int| 0 <= k < old.edges_view().len() && #[trigger] picks(Overlay::Ast, old.edges_view()[k]) == Some((x, y));
            assert(new.edges_view()[k] == new.edges_view().subrange(0, m)[k]);
            assert(picks(Overlay::Ast, new.edges_view()[k]) == Some((x, y)));
        }
    }
    assert(overlay_rel(*new, Overlay::Ast) =~= overlay_rel(*old, Overlay::Ast));
    assert forall|f: NodeId| #[trigger] subtrees(new)(f) == subtrees(old)(f) by {
        lemma_below_same(old, new, f, old.nodes_view().len() as int);
    }
    assert(subtrees(new) =~= subtrees(old));
}

/// Graphs with the same nodes and syntax-tree relation have the same nodes below each node.
pub proof fn lemma_below_same(old: &CodePropertyGraph, new: &CodePropertyGraph, id: NodeId, m: int)
    requires
        new.nodes_view() == old.nodes_view(),
        overlay_rel(*new, Overlay::Ast) == overlay_rel(*old, Overlay::Ast),
    ensures
        below_ids(*new, id, m) == below_ids(*old, id, m),
    decreases m,
{
    if m > 0 {
        lemma_below_same(old, new, id, m - 1);
        let v = NodeId((m - 1) as u32);
        assert(overlay_below(*new, Overlay::Ast, id, v) == overlay_below(*old, Overlay::Ast, id, v));
    }
}

/// The uses of a name, read off the syntax tree.
pub proof fn lemma_uses_in(g: &CodePropertyGraph, s: Seq<NodeId>, x: Seq<char>)
    ensures
        uses_among(g, s, x) == uses_in(ast_of(g), s, x),
{
    assert((|v: NodeId| use_of_name(g, v, x)) =~= (|v: NodeId| is_use_of(ast_of(g), v, x)));
}

/// Nodes of a kind, read off the syntax tree.
pub proof fn lemma_of_kind(g: &CodePropertyGraph, s: Seq<NodeId>, p: spec_fn(CpgNodeKind) -> bool)
    ensures
        kinds_among(g, s, p) == of_kind(ast_of(g), s, p),
{
    assert((|v: NodeId| g.valid(v) && p(g.at(v).kind)) =~= (|v: NodeId| (v.0 as int) < ast_of(g).nodes.len() && p(ast_of(g).nodes[v.0 as int].kind)));
}

/// Adding two lists in turn adds their concatenation.
pub proof fn lemma_with_edges_compose(base: Seq<CpgEdge>, a: Seq<CpgEdge>, b: Seq<CpgEdge>, n: nat)
    ensures
        with_edges(with_edges(base, a, n), b, n) == with_edges(base, a + b, n),
    decreases b.len(),
{
    if b.len() == 0 {
        assert(a + b =~= a);
    } else {
        lemma_with_edges_compose(base, a, b.drop_last(), n);
        assert((a + b).drop_last() =~= a + b.drop_last());
        assert((a + b).last() == b.last());
    }
}

/// After adding, every edge of the list between nodes below `n` is there,
/// and so is every edge that was there before.
pub proof fn lemma_with_edges_covers(base: Seq<CpgEdge>, es: Seq<CpgEdge>, n: nat)
    ensures
        forall|k: int| 0 <= k < es.len() && (es[k].source.0 as int) < n && (es[k].target.0 as int) < n
            ==> with_edges(base, es, n).contains(#[trigger] es[k]),
        forall|e: CpgEdge| base.contains(e) ==> with_edges(base, es, n).contains(e),
    decreases es.len(),
{
    if es.len() > 0 {
        let init = es.drop_last();
        lemma_with_edges_covers(base, init, n);
        let b = with_edges(base, init, n);
        let r = with_edges(base, es, n);
        assert forall|e: CpgEdge| b.contains(e) implies r.contains(e) by {
            let w = choose|w: int| 0 <= w < b.len() && b[w] == e;
            assert(r[w] == e);
        }
        assert forall|k: int| 0 <= k < es.len() && (es[k].source.0 as int) < n && (es[k].target.0 as int) < n
            implies r.contains(#[trigger] es[k]) by {
            if k < init.len() {
                assert(init[k] == es[k]);
                assert(b.contains(init[k]));
            } else if !b.contains(es[k]) {
                assert(r[b.len() as int] == es[k]);
            }
        }
    }
}

/// Adding edges that are all there (or join a node not below `n`) changes nothing.
pub proof fn lemma_with_edges_noop(base: Seq<CpgEdge>, es: Seq<CpgEdge>, n: nat)
    requires
        forall|k: int| 0 <= k < es.len() && (es[k].source.0 as int) < n && (es[k].target.0 as int) < n
            ==> base.contains(#[trigger] es[k]),
    ensures
        with_edges(base, es, n) == base,
    decreases es.len(),
{
    if es.len() > 0 {
        let init = es.drop_last();
        assert forall|k: int| 0 <= k < init.len() && (init[k].source.0 as int) < n && (init[k].target.0 as int) < n
            implies base.contains(#[trigger] init[k]) by {
            assert(init[k] == es[k]);
        }
        lemma_with_edges_noop(base, init, n);
        assert(es.last() == es[es.len() - 1]);
    }
}


// ---------------------------------------------------------------------------
// The options switch families of edges
// ---------------------------------------------------------------------------

/// The data-flow edges of `s` labelled `k`, in order.
pub open spec fn flows(s: Seq<CpgEdge>, k: DfgEdgeKind) -> Seq<CpgEdge>
    decreases s.len(),
{
    if s.len() == 0 {
        Seq::empty()
    } else {
        flows(s.drop_last(), k) + if s.last().kind == CpgEdgeKind::DataFlow(k) { seq![s.last()] } else { Seq::empty() }
    }
}

/// `e` is a data-flow edge with a label that `ks` allows.
pub open spec fn labelled(e: CpgEdge, ks: spec_fn(DfgEdgeKind) -> bool) -> bool {
    match e.kind {
        CpgEdgeKind::DataFlow(k) => ks(k),
        _ => false,
    }
}

/// Every edge of `s` is a data-flow edge with a label that `ks` allows.
pub open spec fn kinds_in(s: Seq<CpgEdge>, ks: spec_fn(DfgEdgeKind) -> bool) -> bool {
    forall|i: int| 0 <= i < s.len() ==> labelled(#[trigger] s[i], ks)
}

proof fn lemma_flows_add(s: Seq<CpgEdge>, t: Seq<CpgEdge>, k: DfgEdgeKind)
    ensures
        flows(s + t, k) == flows(s, k) + flows(t, k),
    decreases t.len(),
{
    if t.len() == 0 {
        assert(s + t =~= s);
        assert(flows(s, k) + flows(t, k) =~= flows(s, k));
    } else {
        lemma_flows_add(s, t.drop_last(), k);
        assert((s + t).drop_last() =~= s + t.drop_last());
        assert((s + t).last() == t.last());
        assert(flows(s + t, k) =~= flows(s, k) + flows(t, k));
    }
}

proof fn lemma_flows_none(s: Seq<CpgEdge>, k: DfgEdgeKind, ks: spec_fn(DfgEdgeKind) -> bool)
    requires
        kinds_in(s, ks),
        !ks(k),
    ensures
        flows(s, k) == Seq::<CpgEdge>::empty(),
    decreases s.len(),
{
    if s.len() > 0 {
        assert(kinds_in(s.drop_last(), ks)) by {
            assert forall|i: int| 0 <= i < s.drop_last().len() implies labelled(#[trigger] s.drop_last()[i], ks) by {
                assert(s.drop_last()[i] == s[i]);
            }
        }
        lemma_flows_none(s.drop_last(), k, ks);
        assert(s.last() == s[s.len() - 1]);
    }
}

proof fn lemma_kinds_add(s: Seq<CpgEdge>, t: Seq<CpgEdge>, ks: spec_fn(DfgEdgeKind) -> bool)
    requires
        kinds_in(s, ks),
        kinds_in(t, ks),
    ensures
        kinds_in(s + t, ks),
{
    assert forall|i: int| 0 <= i < (s + t).len() implies labelled(#[trigger] (s + t)[i], ks) by {
        if i < s.len() {
            assert((s + t)[i] == s[i]);
        } else {
            assert((s + t)[i] == t[i - s.len()]);
        }
    }
}

proof fn lemma_pair_kinds(p: Seq<(NodeId, NodeId)>)
    ensures
        kinds_in(pair_edges(p), |k: DfgEdgeKind| k == DfgEdgeKind::DefUse),
    decreases p.len(),
{
    if p.len() > 0 {
        lemma_pair_kinds(p.drop_last());
        let tail = if p.last().0 != p.last().1 { seq![dfg_edge(p.last().0, p.last().1, DfgEdgeKind::DefUse)] } else { Seq::<CpgEdge>::empty() };
        lemma_kinds_add(pair_edges(p.drop_last()), tail, |k: DfgEdgeKind| k == DfgEdgeKind::DefUse);
    }
}

proof fn lemma_arg_kinds(args: Seq<NodeId>, params: Seq<NodeId>, upto: int)
    ensures
        kinds_in(arg_edges(args, params, upto), |k: DfgEdgeKind| k == DfgEdgeKind::Parameter),
    decreases upto,
{
    if upto > 0 {
        lemma_arg_kinds(args, params, upto - 1);
        let tail = if upto - 1 < args.len() {
            seq![dfg_edge(args[upto - 1], params[upto - 1], DfgEdgeKind::Parameter)]
        } else {
            Seq::<CpgEdge>::empty()
        };
        lemma_kinds_add(arg_edges(args, params, upto - 1), tail, |k: DfgEdgeKind| k == DfgEdgeKind::Parameter);
    }
}

proof fn lemma_caller_kinds(a: Ast, cs: Seq<NodeId>, params: Seq<NodeId>)
    ensures
        kinds_in(caller_edges(a, cs, params), |k: DfgEdgeKind| k == DfgEdgeKind::Parameter),
    decreases cs.len(),
{
    if cs.len() > 0 {
        lemma_caller_kinds(a, cs.drop_last(), params);
        lemma_arg_kinds((a.children)(cs.last()), params, params.len() as int);
        lemma_kinds_add(caller_edges(a, cs.drop_last(), params), arg_edges((a.children)(cs.last()), params, params.len() as int),
            |k: DfgEdgeKind| k == DfgEdgeKind::Parameter);
    }
}

proof fn lemma_fan_kinds(source: NodeId, targets: Seq<NodeId>, k: DfgEdgeKind)
    ensures
        kinds_in(dfg_fan(source, targets, k), |j: DfgEdgeKind| j == k),
{
    assert forall|i: int| 0 <= i < dfg_fan(source, targets, k).len() implies labelled(#[trigger] dfg_fan(source, targets, k)[i], |j: DfgEdgeKind| j == k) by {
        assert(dfg_fan(source, targets, k)[i] == dfg_edge(source, targets[i], k));
    }
}

proof fn lemma_param_use_kinds(a: Ast, below: Seq<NodeId>, ps: Seq<NodeId>)
    ensures
        kinds_in(param_use_edges(a, below, ps), |k: DfgEdgeKind| k == DfgEdgeKind::DefUse),
    decreases ps.len(),
{
    if ps.len() > 0 {
        lemma_param_use_kinds(a, below, ps.drop_last());
        let p = ps.last();
        let tail = match declared_name(a, p) {
            Some(x) => dfg_fan(p, others(uses_in(a, below, x), p, binder_of(a, p, x)), DfgEdgeKind::DefUse),
            None => Seq::<CpgEdge>::empty(),
        };
        if let Some(x) = declared_name(a, p) {
            lemma_fan_kinds(p, others(uses_in(a, below, x), p, binder_of(a, p, x)), DfgEdgeKind::DefUse);
        }
        lemma_kinds_add(param_use_edges(a, below, ps.drop_last()), tail, |k: DfgEdgeKind| k == DfgEdgeKind::DefUse);
    }
}

proof fn lemma_return_kinds(a: Ast, ds: Seq<NodeId>, cs: Seq<NodeId>)
    ensures
        kinds_in(return_edges(a, ds, cs), |k: DfgEdgeKind| k == DfgEdgeKind::ReturnValue),
    decreases ds.len(),
{
    if ds.len() > 0 {
        lemma_return_kinds(a, ds.drop_last(), cs);
        let d = ds.last();
        let tail = if kind_at(a, d) matches Some(CpgNodeKind::Return) && (a.children)(d).len() > 0 {
            dfg_fan((a.children)(d)[0], cs, DfgEdgeKind::ReturnValue)
        } else {
            Seq::<CpgEdge>::empty()
        };
        if (a.children)(d).len() > 0 {
            lemma_fan_kinds((a.children)(d)[0], cs, DfgEdgeKind::ReturnValue);
        }
        lemma_kinds_add(return_edges(a, ds.drop_last(), cs), tail, |k: DfgEdgeKind| k == DfgEdgeKind::ReturnValue);
    }
}

/// The labels of member and index read edges.
pub open spec fn access_kind(k: DfgEdgeKind) -> bool {
    k == DfgEdgeKind::FieldRead || k == DfgEdgeKind::IndexRead || k == DfgEdgeKind::DataDependency
}

proof fn lemma_member_kinds(a: Ast, ms: Seq<NodeId>)
    ensures
        kinds_in(member_edges(a, ms), |k: DfgEdgeKind| access_kind(k)),
    decreases ms.len(),
{
    if ms.len() > 0 {
        lemma_member_kinds(a, ms.drop_last());
        let v = ms.last();
        let tail = if (a.children)(v).len() > 0 {
            seq![dfg_edge((a.children)(v)[0], v, DfgEdgeKind::FieldRead)]
        } else {
            Seq::<CpgEdge>::empty()
        };
        lemma_kinds_add(member_edges(a, ms.drop_last()), tail, |k: DfgEdgeKind| access_kind(k));
    }
}

proof fn lemma_index_kinds(a: Ast, xs: Seq<NodeId>)
    ensures
        kinds_in(index_edges(a, xs), |k: DfgEdgeKind| access_kind(k)),
    decreases xs.len(),
{
    if xs.len() > 0 {
        lemma_index_kinds(a, xs.drop_last());
        let v = xs.last();
        let tail = if (a.children)(v).len() >= 2 {
            seq![dfg_edge((a.children)(v)[0], v, DfgEdgeKind::IndexRead),
                dfg_edge((a.children)(v)[1], v, DfgEdgeKind::DataDependency)]
        } else {
            Seq::<CpgEdge>::empty()
        };
        lemma_kinds_add(index_edges(a, xs.drop_last()), tail, |k: DfgEdgeKind| access_kind(k));
    }
}

/// Each option of the data-flow pass switches one family of edges and no
/// other. Against the default options (every family on): with parameter
/// edges off, no argument-to-parameter edge is made; with returned values
/// off, no returned-value edge; with field access off, no field read, index
/// read or index dependency edge. A family that is on is made exactly as
/// under the default options, and the def-use edges of the
/// reaching-definitions sweep come first whatever the options.
pub proof fn law_dfg_options_switch_families(cfg: DfgExtractorConfig, a: Ast, below: Seq<NodeId>, f: NodeId)
    ensures
        ({
            let e = function_dfg(cfg, a, below, f);
            let e0 = function_dfg(default_dfg_config(), a, below, f);
            let reaching = pair_edges(def_use_pairs(a, f));
            &&& flows(e, DfgEdgeKind::Parameter) == if cfg.include_parameters {
                flows(e0, DfgEdgeKind::Parameter) } else { Seq::empty() }
            &&& flows(e, DfgEdgeKind::ReturnValue) == if cfg.include_return_values {
                flows(e0, DfgEdgeKind::ReturnValue) } else { Seq::empty() }
            &&& flows(e, DfgEdgeKind::FieldRead) == if cfg.include_field_access {
                flows(e0, DfgEdgeKind::FieldRead) } else { Seq::empty() }
            &&& flows(e, DfgEdgeKind::IndexRead) == if cfg.include_field_access {
                flows(e0, DfgEdgeKind::IndexRead) } else { Seq::empty() }
            &&& flows(e, DfgEdgeKind::DataDependency) == if cfg.include_field_access {
                flows(e0, DfgEdgeKind::DataDependency) } else { Seq::empty() }
            &&& e.len() >= reaching.len() && e.take(reaching.len() as int) == reaching
            &&& e0.take(reaching.len() as int) == reaching
        }),
{
    let reaching = pair_edges(def_use_pairs(a, f));
    let ps = params_in(a, (a.children)(f));
    let calls = caller_edges(a, callers_of(a.nodes, f, a.nodes.len() as int), ps);
    let puses = param_use_edges(a, below, ps);
    let pe = param_edges(a, below, f);
    let re = return_edges(a, below, callers_of(a.nodes, f, a.nodes.len() as int));
    let fe = member_edges(a, of_kind(a, below, |k: CpgNodeKind| k is MemberAccess))
        + index_edges(a, of_kind(a, below, |k: CpgNodeKind| k is IndexAccess));
    let empty = Seq::<CpgEdge>::empty();
    let pp = if cfg.include_parameters { pe } else { empty };
    let rr = if cfg.include_return_values { re } else { empty };
    let ff = if cfg.include_field_access { fe } else { empty };
    assert(function_dfg(cfg, a, below, f) == reaching + pp + rr + ff);
    assert(function_dfg(default_dfg_config(), a, below, f) == reaching + pe + re + fe);
    lemma_pair_kinds(def_use_pairs(a, f));
    lemma_caller_kinds(a, callers_of(a.nodes, f, a.nodes.len() as int), ps);
    lemma_param_use_kinds(a, below, ps);
    lemma_return_kinds(a, below, callers_of(a.nodes, f, a.nodes.len() as int));
    lemma_member_kinds(a, of_kind(a, below, |k: CpgNodeKind| k is MemberAccess));
    lemma_index_kinds(a, of_kind(a, below, |k: CpgNodeKind| k is IndexAccess));
    lemma_kinds_add(member_edges(a, of_kind(a, below, |k: CpgNodeKind| k is MemberAccess)),
        index_edges(a, of_kind(a, below, |k: CpgNodeKind| k is IndexAccess)), |k: DfgEdgeKind| access_kind(k));
    let ks = seq![DfgEdgeKind::Parameter, DfgEdgeKind::ReturnValue, DfgEdgeKind::FieldRead, DfgEdgeKind::IndexRead,
        DfgEdgeKind::DataDependency];
    assert forall|i: int| 0 <= i < ks.len() implies ({
        let k = #[trigger] ks[i];
        &&& flows(reaching + pp + rr + ff, k) == flows(pp, k) + flows(rr, k) + flows(ff, k)
        &&& flows(reaching + pe + re + fe, k) == flows(pe, k) + flows(re, k) + flows(fe, k)
    }) by {
        let k = ks[i];
        assert(k != DfgEdgeKind::DefUse);
        lemma_flows_none(reaching, k, |j: DfgEdgeKind| j == DfgEdgeKind::DefUse);
        lemma_flows_add(reaching + pp + rr, ff, k);
        lemma_flows_add(reaching + pp, rr, k);
        lemma_flows_add(reaching, pp, k);
        lemma_flows_add(reaching + pe + re, fe, k);
        lemma_flows_add(reaching + pe, re, k);
        lemma_flows_add(reaching, pe, k);
        assert(flows(empty, k) == empty);
        assert(empty + flows(pp, k) =~= flows(pp, k));
        assert(empty + flows(pe, k) =~= flows(pe, k));
    }
    // Which family each label comes from.
    lemma_flows_add(calls, puses, DfgEdgeKind::Parameter);
    lemma_flows_none(puses, DfgEdgeKind::Parameter, |j: DfgEdgeKind| j == DfgEdgeKind::DefUse);
    assert forall|i: int| 1 <= i < ks.len() implies ({
        let k = #[trigger] ks[i];
        flows(pe, k) == empty
    }) by {
        let k = ks[i];
        lemma_flows_add(calls, puses, k);
        lemma_flows_none(calls, k, |j: DfgEdgeKind| j == DfgEdgeKind::Parameter);
        lemma_flows_none(puses, k, |j: DfgEdgeKind| j == DfgEdgeKind::DefUse);
        assert(empty + empty =~= empty);
    }
    assert forall|i: int| 0 <= i < ks.len() && i != 1 implies ({
        let k = #[trigger] ks[i];
        flows(re, k) == empty
    }) by {
        lemma_flows_none(re, ks[i], |j: DfgEdgeKind| j == DfgEdgeKind::ReturnValue);
    }
    assert forall|i: int| 0 <= i < 2 implies ({
        let k = #[trigger] ks[i];
        flows(fe, k) == empty
    }) by {
        lemma_flows_none(fe, ks[i], |j: DfgEdgeKind| access_kind(j));
    }
    assert(flows(empty, DfgEdgeKind::Parameter) == empty);
    assert(flows(empty, DfgEdgeKind::ReturnValue) == empty);
    assert(flows(empty, DfgEdgeKind::FieldRead) == empty);
    assert(flows(empty, DfgEdgeKind::IndexRead) == empty);
    assert(flows(empty, DfgEdgeKind::DataDependency) == empty);
    assert(ks[0] == DfgEdgeKind::Parameter && ks[1] == DfgEdgeKind::ReturnValue && ks[2] == DfgEdgeKind::FieldRead);
    assert(ks[3] == DfgEdgeKind::IndexRead && ks[4] == DfgEdgeKind::DataDependency);
    assert(empty + empty =~= empty);
    assert((reaching + pp + rr + ff).take(reaching.len() as int) =~= reaching);
    assert((reaching + pe + re + fe).take(reaching.len() as int) =~= reaching);
}


/// An edge is among `flows(s, k)` exactly when it is among `s` and labelled `k`.
proof fn lemma_flows_contains(s: Seq<CpgEdge>, k: DfgEdgeKind, e: CpgEdge)
    ensures
        flows(s, k).contains(e) <==> s.contains(e) && e.kind == CpgEdgeKind::DataFlow(k),
    decreases s.len(),
{
    if s.len() > 0 {
        lemma_flows_contains(s.drop_last(), k, e);
        let tail = if s.last().kind == CpgEdgeKind::DataFlow(k) { seq![s.last()] } else { Seq::<CpgEdge>::empty() };
        assert(flows(s, k) == flows(s.drop_last(), k) + tail);
        if flows(s, k).contains(e) {
            let i = choose|i: int| 0 <= i < flows(s, k).len() && flows(s, k)[i] == e;
            if i < flows(s.drop_last(), k).len() {
                assert(flows(s.drop_last(), k).contains(e));
                let j = choose|j: int| 0 <= j < s.drop_last().len() && s.drop_last()[j] == e;
                assert(s[j] == e);
            } else {
                assert(tail[i - flows(s.drop_last(), k).len()] == e);
                assert(s[s.len() - 1] == e);
            }
        }
        if s.contains(e) && e.kind == CpgEdgeKind::DataFlow(k) {
            let j = choose|j: int| 0 <= j < s.len() && s[j] == e;
            if j < s.len() - 1 {
                assert(s.drop_last()[j] == e);
                assert(s.drop_last().contains(e));
                let i = choose|i: int| 0 <= i < flows(s.drop_last(), k).len() && flows(s.drop_last(), k)[i] == e;
                assert(flows(s, k)[i] == e);
            } else {
                assert(flows(s, k)[flows(s, k).len() - 1] == e);
            }
        }
    }
}

/// An edge is among `with_edges(base, es, n)` exactly when it is among
/// `base`, or among `es` with both ends below `n`.
proof fn lemma_with_edges_contains(base: Seq<CpgEdge>, es: Seq<CpgEdge>, n: nat, e: CpgEdge)
    ensures
        with_edges(base, es, n).contains(e) <==> base.contains(e)
            || (es.contains(e) && (e.source.0 as int) < n && (e.target.0 as int) < n),
    decreases es.len(),
{
    if es.len() > 0 {
        lemma_with_edges_contains(base, es.drop_last(), n, e);
        let b = with_edges(base, es.drop_last(), n);
        let x = es.last();
        if es.contains(e) && !es.drop_last().contains(e) {
            let j = choose|j: int| 0 <= j < es.len() && es[j] == e;
            if j < es.len() - 1 {
                assert(es.drop_last()[j] == e);
            }
            assert(x == e);
        }
        if es.drop_last().contains(e) {
            let j = choose|j: int| 0 <= j < es.drop_last().len() && es.drop_last()[j] == e;
            assert(es[j] == e);
        }
        if (x.source.0 as int) < n && (x.target.0 as int) < n && !b.contains(x) {
            assert(b.push(x).contains(x)) by { assert(b.push(x)[b.len() as int] == x); }
            if b.push(x).contains(e) && e != x {
                let i = choose|i: int| 0 <= i < b.push(x).len() && b.push(x)[i] == e;
                assert(b[i] == e);
            }
            if b.contains(e) {
                let i = choose|i: int| 0 <= i < b.len() && b[i] == e;
                assert(b.push(x)[i] == e);
            }
        }
    }
}

/// The options of the data-flow pass, through what the pass adds to a graph:
/// run on the same graph once with options `cfg` and once with the default
/// options, an edge labelled as a parameter, returned-value, field read,
/// index read or index dependency edge ends up in the first result exactly
/// as in the second when its option is on, and only if the graph already had
/// it when its option is off; the def-use edges of the reaching-definitions
/// sweep between nodes of the graph are added whatever the options.
pub proof fn law_dfg_pass_switches_families(cfg: DfgExtractorConfig, g0: CodePropertyGraph, function: NodeId,
    with_cfg: Seq<CpgEdge>, with_default: Seq<CpgEdge>, e: CpgEdge)
    requires
        with_cfg == with_edges(g0.edges_view(),
            function_dfg(cfg, ast_of(&g0), below_ids(g0, function, g0.nodes_view().len() as int), function), g0.nodes_view().len()),
        with_default == with_edges(g0.edges_view(),
            function_dfg(default_dfg_config(), ast_of(&g0), below_ids(g0, function, g0.nodes_view().len() as int), function),
            g0.nodes_view().len()),
    ensures
        e.kind == CpgEdgeKind::DataFlow(DfgEdgeKind::Parameter) ==> (with_cfg.contains(e) <==>
            if cfg.include_parameters { with_default.contains(e) } else { g0.edges_view().contains(e) }),
        e.kind == CpgEdgeKind::DataFlow(DfgEdgeKind::ReturnValue) ==> (with_cfg.contains(e) <==>
            if cfg.include_return_values { with_default.contains(e) } else { g0.edges_view().contains(e) }),
        e.kind == CpgEdgeKind::DataFlow(DfgEdgeKind::FieldRead) ==> (with_cfg.contains(e) <==>
            if cfg.include_field_access { with_default.contains(e) } else { g0.edges_view().contains(e) }),
        e.kind == CpgEdgeKind::DataFlow(DfgEdgeKind::IndexRead) ==> (with_cfg.contains(e) <==>
            if cfg.include_field_access { with_default.contains(e) } else { g0.edges_view().contains(e) }),
        e.kind == CpgEdgeKind::DataFlow(DfgEdgeKind::DataDependency) ==> (with_cfg.contains(e) <==>
            if cfg.include_field_access { with_default.contains(e) } else { g0.edges_view().contains(e) }),
        pair_edges(def_use_pairs(ast_of(&g0), function)).contains(e)
            && (e.source.0 as int) < g0.nodes_view().len() && (e.target.0 as int) < g0.nodes_view().len()
            ==> with_cfg.contains(e) && with_default.contains(e),
{
    let a = ast_of(&g0);
    let below = below_ids(g0, function, g0.nodes_view().len() as int);
    let n = g0.nodes_view().len();
    let es = function_dfg(cfg, a, below, function);
    let es0 = function_dfg(default_dfg_config(), a, below, function);
    law_dfg_options_switch_families(cfg, a, below, function);
    lemma_with_edges_contains(g0.edges_view(), es, n, e);
    lemma_with_edges_contains(g0.edges_view(), es0, n, e);
    if let CpgEdgeKind::DataFlow(k) = e.kind {
        lemma_flows_contains(es, k, e);
        lemma_flows_contains(es0, k, e);
        assert(!Seq::<CpgEdge>::empty().contains(e));
    }
    let reaching = pair_edges(def_use_pairs(a, function));
    if reaching.contains(e) {
        let i = choose|i: int| 0 <= i < reaching.len() && reaching[i] == e;
        assert(es.take(reaching.len() as int)[i] == e);
        assert(es[i] == e);
        assert(es0.take(reaching.len() as int)[i] == e);
        assert(es0[i] == e);
    }
}


// ---------------------------------------------------------------------------
// Definitions in conditional code do not kill
// ---------------------------------------------------------------------------

/// Every definition reaching a name in `e1` still reaches it in `e2`.
pub open spec fn env_within(e1: Seq<(Seq<char>, Seq<NodeId>)>, e2: Seq<(Seq<char>, Seq<NodeId>)>) -> bool {
    forall|x: Seq<char>, d: NodeId| #[trigger] env_lookup(e1, x).contains(d) ==> env_lookup(e2, x).contains(d)
}

proof fn lemma_find_update(e: Seq<(Seq<char>, Seq<NodeId>)>, i: int, v: Seq<NodeId>, y: Seq<char>, j: int)
    requires
        0 <= i < e.len(),
        0 <= j,
    ensures
        env_find(e.update(i, (e[i].0, v)), y, j) == env_find(e, y, j),
    decreases e.len() - j,
{
    if j < e.len() {
        lemma_find_update(e, i, v, y, j + 1);
    }
}

proof fn lemma_find_push(e: Seq<(Seq<char>, Seq<NodeId>)>, p: (Seq<char>, Seq<NodeId>), y: Seq<char>, j: int)
    requires
        0 <= j,
        env_find(e, y, j) is Some,
    ensures
        env_find(e.push(p), y, j) == env_find(e, y, j),
    decreases e.len() - j,
{
    if j < e.len() && e[j].0 != y {
        lemma_find_push(e, p, y, j + 1);
    }
}

proof fn lemma_find_found(e: Seq<(Seq<char>, Seq<NodeId>)>, y: Seq<char>, j: int)
    requires
        0 <= j,
    ensures
        env_find(e, y, j) matches Some(i) ==> j <= i < e.len() && e[i].0 == y,
    decreases e.len() - j,
{
    if j < e.len() && e[j].0 != y {
        lemma_find_found(e, y, j + 1);
    }
}

/// Binding a name in conditional code keeps every definition reaching.
proof fn lemma_bind_conditional_within(e: Seq<(Seq<char>, Seq<NodeId>)>, x: Seq<char>, d: NodeId)
    ensures
        env_within(e, env_bind(e, x, d, true)),
{
    let e2 = env_bind(e, x, d, true);
    assert forall|y: Seq<char>, c: NodeId| #[trigger] env_lookup(e, y).contains(c) implies env_lookup(e2, y).contains(c) by {
        if x.len() > 0 {
            lemma_find_found(e, y, 0);
            match env_find(e, x, 0) {
                Some(i) => {
                    lemma_find_found(e, x, 0);
                    let v = if e[i].1.contains(d) { e[i].1 } else { e[i].1.push(d) };
                    lemma_find_update(e, i, v, y, 0);
                    assert(e[i].0 == x);
                    assert(e2 == e.update(i, (e[i].0, v)));
                    let k = env_find(e, y, 0)->0;
                    if k == i {
                        let t = choose|t: int| 0 <= t < e[i].1.len() && e[i].1[t] == c;
                        assert(v[t] == c);
                    } else {
                        assert(e2[k] == e[k]);
                    }
                },
                None => {
                    lemma_find_push(e, (x, seq![d]), y, 0);
                    let k = env_find(e, y, 0)->0;
                    assert(e2[k] == e[k]);
                },
            }
        }
    }
}

proof fn lemma_within_trans(e1: Seq<(Seq<char>, Seq<NodeId>)>, e2: Seq<(Seq<char>, Seq<NodeId>)>, e3: Seq<(Seq<char>, Seq<NodeId>)>)
    requires
        env_within(e1, e2),
        env_within(e2, e3),
    ensures
        env_within(e1, e3),
{
    assert forall|x: Seq<char>, d: NodeId| #[trigger] env_lookup(e1, x).contains(d) implies env_lookup(e3, x).contains(d) by {
        assert(env_lookup(e2, x).contains(d));
    }
}

proof fn lemma_node_within(a: Ast, node: NodeId, s: Sweep, fuel: nat)
    ensures
        env_within(s.env, sweep_node(a, node, s, true, fuel).env),
    decreases fuel, 0int, 0int,
{
    match kind_at(a, node) {
        None => {},
        Some(k) => {
            let i = node.0 as int;
            if !(s.on_path[i] || fuel == 0) {
                let s1 = Sweep { env: s.env, pairs: s.pairs, on_path: s.on_path.update(i, true) };
                lemma_kind_within(a, k, node, s1, (fuel - 1) as nat);
            }
        },
    }
}

proof fn lemma_kind_within(a: Ast, k: CpgNodeKind, node: NodeId, s: Sweep, fuel: nat)
    ensures
        env_within(s.env, sweep_kind(a, k, node, s, true, fuel).env),
    decreases fuel, 3int, 0int,
{
    match k {
        CpgNodeKind::Variable { name, .. } => {
            let x = name@;
            let o = sweep_kids(a, (a.children)(node), 0, binder_of(a, node, x), false, s, true, fuel);
            lemma_kids_within(a, (a.children)(node), 0, binder_of(a, node, x), false, s, fuel);
            lemma_bind_conditional_within(o.env, x, node);
            lemma_within_trans(s.env, o.env, env_bind(o.env, x, node, true));
        },
        CpgNodeKind::Parameter { name, .. } => {
            let x = name@;
            let o = sweep_kids(a, (a.children)(node), 0, binder_of(a, node, x), false, s, true, fuel);
            lemma_kids_within(a, (a.children)(node), 0, binder_of(a, node, x), false, s, fuel);
            lemma_bind_conditional_within(o.env, x, node);
            lemma_within_trans(s.env, o.env, env_bind(o.env, x, node, true));
        },
        CpgNodeKind::Assignment { operator } => {
            let target = assigned_name(a, node);
            let skip = target is Some && operator@ == "="@;
            let o = sweep_kids(a, (a.children)(node), 0, None, skip, s, true, fuel);
            lemma_kids_within(a, (a.children)(node), 0, None, skip, s, fuel);
            if let Some(x) = target {
                lemma_bind_conditional_within(o.env, x, node);
                lemma_within_trans(s.env, o.env, env_bind(o.env, x, node, true));
            }
        },
        CpgNodeKind::Identifier { .. } => {},
        _ => {
            lemma_passes_within(a, (a.children)(node), 0, if k is While || k is For || k is Loop { 2 } else { 1 }, s, fuel);
        },
    }
}

proof fn lemma_kids_within(a: Ast, ch: Seq<NodeId>, k: int, binder: Option<NodeId>, skip_first: bool, s: Sweep, fuel: nat)
    ensures
        env_within(s.env, sweep_kids(a, ch, k, binder, skip_first, s, true, fuel).env),
    decreases fuel, 1int, ch.len() - k,
{
    if k < ch.len() {
        let skip = binder == Some(ch[k]) || (k == 0 && skip_first);
        let s1 = if skip { s } else { sweep_node(a, ch[k], s, true, fuel) };
        if !skip {
            lemma_node_within(a, ch[k], s, fuel);
        }
        lemma_kids_within(a, ch, k + 1, binder, skip_first, s1, fuel);
        lemma_within_trans(s.env, s1.env, sweep_kids(a, ch, k + 1, binder, skip_first, s1, true, fuel).env);
    }
}

proof fn lemma_passes_within(a: Ast, ch: Seq<NodeId>, p: int, passes: int, s: Sweep, fuel: nat)
    ensures
        env_within(s.env, sweep_passes(a, ch, p, passes, s, true, fuel).env),
    decreases fuel, 2int, passes - p,
{
    if p < passes {
        let s1 = sweep_kids(a, ch, 0, None, false, s, true, fuel);
        lemma_kids_within(a, ch, 0, None, false, s, fuel);
        lemma_passes_within(a, ch, p + 1, passes, s1, fuel);
        lemma_within_trans(s.env, s1.env, sweep_passes(a, ch, p + 1, passes, s1, true, fuel).env);
    }
}

/// A definition made inside a conditional construct (an `if`, an `else`, a
/// loop, a `match` or one of its arms, a `try`, `catch` or `finally`) does
/// not kill the definitions made before it: whether the construct stands in
/// straight-line code or not, every definition reaching a name before the
/// sweep passes through it still reaches that name after it, so a later use
/// is paired with it.
pub proof fn law_conditional_definitions_do_not_kill(a: Ast, node: NodeId, s: Sweep, conditional: bool, fuel: nat)
    requires
        kind_at(a, node) matches Some(k) && (k is If || k is Else || k is While || k is For || k is Loop
            || k is Match || k is MatchArm || k is Try || k is Catch || k is Finally),
    ensures
        env_within(s.env, sweep_node(a, node, s, conditional, fuel).env),
{
    let k = kind_at(a, node)->0;
    let i = node.0 as int;
    if !(s.on_path[i] || fuel == 0) {
        let s1 = Sweep { env: s.env, pairs: s.pairs, on_path: s.on_path.update(i, true) };
        let passes = if k is While || k is For || k is Loop { 2int } else { 1int };
        assert(conditional || conditional_region(k));
        assert(sweep_kind(a, k, node, s1, conditional, (fuel - 1) as nat)
            == sweep_passes(a, (a.children)(node), 0, passes, s1, true, (fuel - 1) as nat));
        lemma_passes_within(a, (a.children)(node), 0, passes, s1, (fuel - 1) as nat);
    }
}


/// When no entry of `x` is found from `j` on, no entry from `j` on names `x`.
proof fn lemma_find_first(e: Seq<(Seq<char>, Seq<NodeId>)>, x: Seq<char>, j: int)
    requires
        0 <= j,
        env_find(e, x, j) is None,
    ensures
        forall|k: int| j <= k < e.len() ==> e[k].0 != x,
    decreases e.len() - j,
{
    if j < e.len() {
        lemma_find_first(e, x, j + 1);
    }
}

/// A definition in straight-line code is the only one reaching its name
/// afterwards: binding a non-empty name unconditionally replaces what reached
/// it.
pub proof fn law_straight_line_definition_kills(e: Seq<(Seq<char>, Seq<NodeId>)>, x: Seq<char>, d: NodeId)
    requires
        x.len() > 0,
    ensures
        env_lookup(env_bind(e, x, d, false), x) == seq![d],
{
    let e2 = env_bind(e, x, d, false);
    match env_find(e, x, 0) {
        Some(i) => {
            lemma_find_found(e, x, 0);
            lemma_find_update(e, i, seq![d], x, 0);
            assert(e2 == e.update(i, (e[i].0, seq![d])));
        },
        None => {
            lemma_find_first(e, x, 0);
            let n = e.len() as int;
            assert(e2 == e.push((x, seq![d])));
            lemma_find_skip(e2, x, 0, n);
        },
    }
}

/// Past entries that name something else, the search for `x` stops at the
/// first entry that names it.
proof fn lemma_find_skip(e: Seq<(Seq<char>, Seq<NodeId>)>, x: Seq<char>, j: int, n: int)
    requires
        0 <= j <= n < e.len(),
        forall|k: int| j <= k < n ==> e[k].0 != x,
        e[n].0 == x,
    ensures
        env_find(e, x, j) == Some(n),
    decreases n - j,
{
    if j < n {
        lemma_find_skip(e, x, j + 1, n);
    }
}

/// A declaration in straight-line code kills the definitions that reached
/// its name: after the sweep passes it, only it reaches the name.
pub proof fn law_straight_line_declaration_kills(a: Ast, node: NodeId, s: Sweep, fuel: nat)
    requires
        kind_at(a, node) matches Some(CpgNodeKind::Variable { name, .. }) && name@.len() > 0,
        !s.on_path[node.0 as int],
        fuel > 0,
    ensures
        ({
            let x = kind_at(a, node)->0->Variable_name@;
            env_lookup(sweep_node(a, node, s, false, fuel).env, x) == seq![node]
        }),
{
    let k = kind_at(a, node)->0;
    let x = k->Variable_name@;
    let i = node.0 as int;
    let s1 = Sweep { env: s.env, pairs: s.pairs, on_path: s.on_path.update(i, true) };
    let o = sweep_kids(a, (a.children)(node), 0, binder_of(a, node, x), false, s1, false, (fuel - 1) as nat);
    assert(sweep_kind(a, k, node, s1, false, (fuel - 1) as nat).env == env_bind(o.env, x, node, false));
    law_straight_line_definition_kills(o.env, x, node);
}

} // verus!
