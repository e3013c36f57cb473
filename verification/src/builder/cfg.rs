//! Control-flow edges from the syntax tree: each construct (block, branch,
//! loop, match, jump, try, call) wires its parts in execution order and hands
//! back the nodes control leaves it from.

use vstd::prelude::*;
use crate::graph::{
    appended_fresh, copy_ids, function_ids, lemma_appended_fresh_trans,
    CodePropertyGraph, CfgEdgeKind, CpgEdge, CpgEdgeKind, CpgNodeKind, NodeId, select, sel_ast_child, sel_cfg_pred,
    sel_cfg_succ, lemma_select_member,
};
use super::cfg_rules::{
    ast_of, block_flow, block_steps, break_flow, call_args, call_flow, catch_flows, cfg_extracted, chain_flow,
    continue_flow, else_target, fan_in, fan_out, for_flow, function_flow, functions_exits, functions_links, if_flow,
    is_arm, is_jump, kind_at, lemma_ast_kept, lemma_ast_same, lemma_with_ids_compose, lemma_with_links_compose,
    loop_body_flow, loop_flow, match_arms, match_flow, node_flow, return_flow, seq_flow, start_walk, throw_flow,
    try_flow, try_parts, while_flow, with_ids, with_links, with_marks, Flow, Link, LoopFrame, Walk,
};
use crate::overlay::below_ids;

verus! {

/// Options of control-flow extraction.
#[derive(Clone, Copy, Debug, PartialEq, Eq, Structural)]
pub struct CfgExtractorConfig {
    /// Wire implicit fall-through.
    pub include_fallthrough: bool,
    /// Wire exceptional control flow (try, catch, finally, throw).
    pub include_exceptions: bool,
    /// Wire call edges to resolved targets.
    pub include_call_edges: bool,
}

/// All options on.
pub open spec fn default_cfg_config() -> CfgExtractorConfig {
    CfgExtractorConfig { include_fallthrough: true, include_exceptions: true, include_call_edges: true }
}

impl Default for CfgExtractorConfig {
    fn default() -> (r: Self)
        ensures
            r == default_cfg_config(),
    {
        CfgExtractorConfig { include_fallthrough: true, include_exceptions: true, include_call_edges: true }
    }
}

/// `new` is `old` with control-flow edges appended and nothing else changed.
pub open spec fn cfg_grown(new: &CodePropertyGraph, old: &CodePropertyGraph) -> bool {
    &&& new.wf()
    &&& new.nodes_view() == old.nodes_view()
    &&& new.edges_view().len() >= old.edges_view().len()
    &&& new.edges_view().subrange(0, old.edges_view().len() as int) == old.edges_view()
    &&& forall|j: int| old.edges_view().len() <= j < new.edges_view().len() ==> (#[trigger] new.edges_view()[j]).kind.spec_is_cfg()
    &&& forall|i: int, j: int| 0 <= i < j < new.edges_view().len() && old.edges_view().len() <= j ==>
        #[trigger] new.edges_view()[i] != #[trigger] new.edges_view()[j]
    &&& new.entries_view() == old.entries_view()
    &&& new.exits_view() == old.exits_view()
    &&& new.language_view() == old.language_view()
    &&& new.source_code_view() == old.source_code_view()
    &&& new.source_path_view() == old.source_path_view()
}

/// A graph has grown from itself.
pub proof fn lemma_cfg_grown_refl(g: &CodePropertyGraph)
    requires
        g.wf(),
    ensures
        cfg_grown(g, g),
{
    assert(g.edges_view().subrange(0, g.edges_view().len() as int) =~= g.edges_view());
}

/// Growth composes.
pub proof fn lemma_cfg_grown_trans(a: &CodePropertyGraph, b: &CodePropertyGraph, c: &CodePropertyGraph)
    requires
        cfg_grown(b, a),
        cfg_grown(c, b),
    ensures
        cfg_grown(c, a),
{
    assert(c.edges_view().subrange(0, a.edges_view().len() as int)
        =~= c.edges_view().subrange(0, b.edges_view().len() as int).subrange(0, a.edges_view().len() as int));
    assert forall|j: int| a.edges_view().len() <= j < c.edges_view().len() implies (#[trigger] c.edges_view()[j]).kind.spec_is_cfg() by {
        if j < b.edges_view().len() {
            assert(c.edges_view()[j] == c.edges_view().subrange(0, b.edges_view().len() as int)[j]);
        }
    }
    assert forall|i: int, j: int| 0 <= i < j < c.edges_view().len() && a.edges_view().len() <= j implies
        #[trigger] c.edges_view()[i] != #[trigger] c.edges_view()[j] by {
        if j < b.edges_view().len() {
            assert(c.edges_view()[j] == c.edges_view().subrange(0, b.edges_view().len() as int)[j]);
            assert(c.edges_view()[i] == c.edges_view().subrange(0, b.edges_view().len() as int)[i]);
            assert(b.edges_view()[i] != b.edges_view()[j]);
        }
    }
}

/// The syntax-tree children of `n`.
pub open spec fn kids(g: &CodePropertyGraph, n: NodeId) -> Seq<NodeId> {
    select(g.edges_view(), sel_ast_child(n))
}

/// A control-flow edge.
pub open spec fn flow(a: NodeId, b: NodeId, k: CfgEdgeKind) -> CpgEdge {
    CpgEdge { source: a, target: b, kind: CpgEdgeKind::ControlFlow(k) }
}

/// An enclosing loop: where `continue` goes, and the `break`s met so far.
#[derive(Debug)]
struct LoopContext {
    loop_id: NodeId,
    continue_target: NodeId,
    break_targets: Vec<NodeId>,
}

/// The enclosing loops and try blocks, and the nodes on the current descent.
struct CfgContext {
    loop_stack: Vec<LoopContext>,
    try_stack: Vec<Vec<NodeId>>,
    on_path: Vec<bool>,
}

/// A loop frame as values.
spec fn frame_of(l: LoopContext) -> LoopFrame {
    LoopFrame { loop_id: l.loop_id, continue_target: l.continue_target, breaks: l.break_targets@ }
}

/// Loop frames as values.
spec fn frames(s: Seq<LoopContext>) -> Seq<LoopFrame> {
    s.map_values(|l: LoopContext| frame_of(l))
}

/// Handler lists as values.
spec fn handler_lists(s: Seq<Vec<NodeId>>) -> Seq<Seq<NodeId>> {
    s.map_values(|t: Vec<NodeId>| t@)
}

/// The context as values.
spec fn walk_of(c: &CfgContext) -> Walk {
    Walk { on_path: c.on_path@, loops: frames(c.loop_stack@), tries: handler_lists(c.try_stack@) }
}

/// The step ran as `f` says: it returned `f`'s exits, left `f`'s links and
/// carried `f`'s state on.
spec fn ran(exits: Seq<NodeId>, links: Seq<Link>, c: &CfgContext, f: Flow) -> bool {
    exits =~= f.exits && links =~= f.links && walk_of(c) =~~= f.walk
}

/// The context fits the graph: one path mark per node.
spec fn ctx_ok(ctx: &CfgContext, g: &CodePropertyGraph) -> bool {
    ctx.on_path@.len() == g.nodes_view().len()
}

/// The context after a step keeps the path marks, the loops (their break
/// lists may grow) and the try blocks of the context before it.
spec fn ctx_kept(new: &CfgContext, old: &CfgContext) -> bool {
    &&& new.on_path@ == old.on_path@
    &&& new.loop_stack@.len() == old.loop_stack@.len()
    &&& forall|i: int| 0 <= i < old.loop_stack@.len() ==> {
        &&& (#[trigger] new.loop_stack@[i]).loop_id == old.loop_stack@[i].loop_id
        &&& new.loop_stack@[i].continue_target == old.loop_stack@[i].continue_target
    }
    &&& new.try_stack@.len() == old.try_stack@.len()
    &&& forall|i: int| 0 <= i < old.try_stack@.len() ==> (#[trigger] new.try_stack@[i])@ == old.try_stack@[i]@
}

proof fn lemma_ctx_kept_refl(c: &CfgContext)
    ensures
        ctx_kept(c, c),
{
}

proof fn lemma_ctx_kept_trans(a: &CfgContext, b: &CfgContext, c: &CfgContext)
    requires
        ctx_kept(b, a),
        ctx_kept(c, b),
    ensures
        ctx_kept(c, a),
{
    assert forall|i: int| 0 <= i < a.loop_stack@.len() implies {
        &&& (#[trigger] c.loop_stack@[i]).loop_id == a.loop_stack@[i].loop_id
        &&& c.loop_stack@[i].continue_target == a.loop_stack@[i].continue_target
    } by {
        assert(b.loop_stack@[i].loop_id == a.loop_stack@[i].loop_id);
    }
    assert forall|i: int| 0 <= i < a.try_stack@.len() implies (#[trigger] c.try_stack@[i])@ == a.try_stack@[i]@ by {
        assert(b.try_stack@[i]@ == a.try_stack@[i]@);
    }
}

/// Appending one link.
proof fn lemma_fan_in_push(s: Seq<NodeId>, x: NodeId, target: NodeId, k: CfgEdgeKind)
    ensures
        fan_in(s.push(x), target, k) == fan_in(s, target, k).push(Link { from: x, to: target, kind: k }),
{
    assert(fan_in(s.push(x), target, k) =~= fan_in(s, target, k).push(Link { from: x, to: target, kind: k }));
}

/// Appending one link.
proof fn lemma_fan_out_push(source: NodeId, s: Seq<NodeId>, x: NodeId, k: CfgEdgeKind)
    ensures
        fan_out(source, s.push(x), k) == fan_out(source, s, k).push(Link { from: source, to: x, kind: k }),
{
    assert(fan_out(source, s.push(x), k) =~= fan_out(source, s, k).push(Link { from: source, to: x, kind: k }));
}

/// Adds control-flow edges to a graph.
#[derive(Clone, Copy, Debug)]
pub struct CfgExtractor {
    config: CfgExtractorConfig,
}

impl Default for CfgExtractor {
    fn default() -> (r: Self)
        ensures
            r.config_view() == default_cfg_config(),
    {
        Self::new()
    }
}

impl CfgExtractor {
    /// The options in use.
    pub closed spec fn config_view(&self) -> CfgExtractorConfig {
        self.config
    }

    /// An extractor with all options on.
    pub fn new() -> (r: Self)
        ensures
            r.config_view() == default_cfg_config(),
    {
        CfgExtractor { config: CfgExtractorConfig::default() }
    }

    /// An extractor with the given options.
    pub fn with_config(config: CfgExtractorConfig) -> (r: Self)
        ensures
            r.config_view() == config,
    {
        CfgExtractor { config }
    }

    /// Adds control flow for every function of the graph, in node order: each
    /// function becomes an entry point, the links of [`function_flow`] are
    /// wired (each once), and the exits of each function's body become exit
    /// points. Only control-flow edges are added.
    pub fn extract(&self, cpg: &mut CodePropertyGraph)
        requires
            old(cpg).wf(),
        ensures
            cfg_extracted(self.config_view(), old(cpg), final(cpg)),
            final(cpg).wf(),
            final(cpg).nodes_view() == old(cpg).nodes_view(),
            final(cpg).edges_view().len() >= old(cpg).edges_view().len(),
            final(cpg).edges_view().subrange(0, old(cpg).edges_view().len() as int) == old(cpg).edges_view(),
            forall|j: int| old(cpg).edges_view().len() <= j < final(cpg).edges_view().len()
                ==> (#[trigger] final(cpg).edges_view()[j]).kind.spec_is_cfg(),
            appended_fresh(final(cpg).edges_view(), old(cpg).edges_view().len() as int),
            forall|k: int| 0 <= k < old(cpg).nodes_view().len() && crate::graph::is_function_kind(#[trigger] old(cpg).nodes_view()[k].kind)
                ==> final(cpg).entries_view().contains(NodeId(k as u32)),
            final(cpg).language_view() == old(cpg).language_view(),
            final(cpg).source_code_view() == old(cpg).source_code_view(),
            final(cpg).source_path_view() == old(cpg).source_path_view(),
    {
        let functions = cpg.functions();
        let ghost cfg = self.config_view();
        let ghost a0 = ast_of(old(cpg));
        let ghost n = old(cpg).nodes_view().len();
        let mut i: usize = 0;
        proof {
            assert(functions@.take(0) =~= Seq::<NodeId>::empty());
            assert(cpg.edges_view().subrange(0, old(cpg).edges_view().len() as int) =~= old(cpg).edges_view());
        }
        while i < functions.len()
            invariant
                cpg.wf(),
                cpg.nodes_view() == old(cpg).nodes_view(),
                cpg.edges_view().len() >= old(cpg).edges_view().len(),
                cpg.edges_view().subrange(0, old(cpg).edges_view().len() as int) == old(cpg).edges_view(),
                forall|j: int| old(cpg).edges_view().len() <= j < cpg.edges_view().len()
                    ==> (#[trigger] cpg.edges_view()[j]).kind.spec_is_cfg(),
                appended_fresh(cpg.edges_view(), old(cpg).edges_view().len() as int),
                functions@ == function_ids(old(cpg).nodes_view(), old(cpg).nodes_view().len() as int),
                forall|k: int| 0 <= k < functions@.len() ==> old(cpg).valid(#[trigger] functions@[k])
                    && crate::graph::is_function_kind(old(cpg).at(functions@[k]).kind),
                forall|k: int| 0 <= k < old(cpg).nodes_view().len() && crate::graph::is_function_kind(#[trigger] old(cpg).nodes_view()[k].kind)
                    ==> functions@.contains(NodeId(k as u32)),
                forall|k: int| 0 <= k < i ==> cpg.entries_view().contains(#[trigger] functions@[k]),
                i <= functions@.len(),
                cfg == self.config_view(),
                a0 == ast_of(old(cpg)),
                n == old(cpg).nodes_view().len(),
                cpg.edges_view() == with_links(old(cpg).edges_view(), functions_links(cfg, a0, functions@.take(i as int)), n),
                cpg.entries_view() == with_ids(old(cpg).entries_view(), functions@.take(i as int)),
                cpg.exits_view() == with_ids(old(cpg).exits_view(), functions_exits(cfg, a0, functions@.take(i as int))),
                cpg.language_view() == old(cpg).language_view(),
                cpg.source_code_view() == old(cpg).source_code_view(),
                cpg.source_path_view() == old(cpg).source_path_view(),
            decreases functions@.len() - i,
        {
            let ghost before = *cpg;
            proof { lemma_ast_kept(old(cpg), &before); }
            self.extract_function_cfg(cpg, functions[i]);
            proof {
                let f = functions@[i as int];
                let done = functions@.take(i as int);
                assert(functions@.take(i + 1).drop_last() =~= done);
                assert(functions@.take(i + 1).last() == f);
                lemma_with_links_compose(old(cpg).edges_view(), functions_links(cfg, a0, done), function_flow(cfg, a0, f).links, n);
                lemma_with_ids_compose(old(cpg).entries_view(), done, seq![f]);
                assert(done + seq![f] =~= functions@.take(i + 1));
                lemma_with_ids_compose(old(cpg).exits_view(), functions_exits(cfg, a0, done), function_flow(cfg, a0, f).exits);
                lemma_appended_fresh_trans(old(cpg).edges_view().len() as int, before.edges_view(), cpg.edges_view());
                assert(cpg.edges_view().subrange(0, old(cpg).edges_view().len() as int)
                    =~= cpg.edges_view().subrange(0, before.edges_view().len() as int).subrange(0, old(cpg).edges_view().len() as int));
                assert forall|j: int| old(cpg).edges_view().len() <= j < cpg.edges_view().len()
                    implies (#[trigger] cpg.edges_view()[j]).kind.spec_is_cfg() by {
                    if j < before.edges_view().len() {
                        assert(cpg.edges_view()[j] == cpg.edges_view().subrange(0, before.edges_view().len() as int)[j]);
                    }
                }
                assert forall|k: int| 0 <= k < i + 1 implies cpg.entries_view().contains(#[trigger] functions@[k]) by {
                    if k < i {
                        assert(before.entries_view().contains(functions@[k]));
                    }
                }
            }
            i = i + 1;
        }
        proof {
            assert(functions@.take(i as int) =~= functions@);
            assert forall|k: int| 0 <= k < old(cpg).nodes_view().len() && crate::graph::is_function_kind(#[trigger] old(cpg).nodes_view()[k].kind)
                implies cpg.entries_view().contains(NodeId(k as u32)) by {
                let w = choose|w: int| 0 <= w < functions@.len() && functions@[w] == NodeId(k as u32);
                assert(cpg.entries_view().contains(functions@[w]));
            }
        }
    }

    /// Adds control flow for one function: it becomes an entry point, the
    /// links of [`function_flow`] are wired (each once, between nodes of the
    /// graph), and the exits of its body become exit points. Only
    /// control-flow edges are added.
    pub fn extract_function_cfg(&self, cpg: &mut CodePropertyGraph, function: NodeId)
        requires
            old(cpg).wf(),
        ensures
            final(cpg).wf(),
            final(cpg).nodes_view() == old(cpg).nodes_view(),
            final(cpg).edges_view() == with_links(old(cpg).edges_view(),
                function_flow(self.config_view(), ast_of(old(cpg)), function).links, old(cpg).nodes_view().len()),
            final(cpg).entries_view() == with_ids(old(cpg).entries_view(), seq![function]),
            final(cpg).exits_view() == with_ids(old(cpg).exits_view(), function_flow(self.config_view(), ast_of(old(cpg)), function).exits),
            final(cpg).edges_view().len() >= old(cpg).edges_view().len(),
            final(cpg).edges_view().subrange(0, old(cpg).edges_view().len() as int) == old(cpg).edges_view(),
            forall|j: int| old(cpg).edges_view().len() <= j < final(cpg).edges_view().len()
                ==> (#[trigger] final(cpg).edges_view()[j]).kind.spec_is_cfg(),
            appended_fresh(final(cpg).edges_view(), old(cpg).edges_view().len() as int),
            final(cpg).entries_view().contains(function),
            forall|x: NodeId| old(cpg).entries_view().contains(x) ==> final(cpg).entries_view().contains(x),
            forall|x: NodeId| old(cpg).exits_view().contains(x) ==> final(cpg).exits_view().contains(x),
            final(cpg).language_view() == old(cpg).language_view(),
            final(cpg).source_code_view() == old(cpg).source_code_view(),
            final(cpg).source_path_view() == old(cpg).source_path_view(),
    {
        cpg.add_cfg_entry(function);
        let ghost g0 = *cpg;
        proof {
            assert(seq![function].drop_last() =~= Seq::<NodeId>::empty());
            assert(with_ids(old(cpg).entries_view(), Seq::<NodeId>::empty()) == old(cpg).entries_view());
            if !old(cpg).entries_view().contains(function) {
                assert(cpg.entries_view()[cpg.entries_view().len() - 1] == function);
            }
            assert forall|x: NodeId| old(cpg).entries_view().contains(x) implies cpg.entries_view().contains(x) by {
                let w = choose|w: int| 0 <= w < old(cpg).entries_view().len() && old(cpg).entries_view()[w] == x;
                assert(cpg.entries_view()[w] == old(cpg).entries_view()[w]);
            }
            lemma_ast_same(old(cpg), &g0);
        }
        let (links, exits) = self.plan_function(cpg, function);
        Self::wire(cpg, &links);
        let ghost g2 = *cpg;
        let mut j: usize = 0;
        proof { assert(exits@.take(0) =~= Seq::<NodeId>::empty()); }
        while j < exits.len()
            invariant
                cpg.wf(),
                cpg.nodes_view() == g2.nodes_view(),
                cpg.edges_view() == g2.edges_view(),
                cpg.entries_view() == g2.entries_view(),
                cpg.exits_view() == with_ids(g2.exits_view(), exits@.take(j as int)),
                forall|x: NodeId| g2.exits_view().contains(x) ==> cpg.exits_view().contains(x),
                cpg.language_view() == g2.language_view(),
                cpg.source_code_view() == g2.source_code_view(),
                cpg.source_path_view() == g2.source_path_view(),
                j <= exits@.len(),
            decreases exits@.len() - j,
        {
            let ghost before = *cpg;
            cpg.add_cfg_exit(exits[j]);
            proof {
                assert(exits@.take(j + 1).drop_last() =~= exits@.take(j as int));
                assert forall|x: NodeId| g2.exits_view().contains(x) implies cpg.exits_view().contains(x) by {
                    let w = choose|w: int| 0 <= w < before.exits_view().len() && before.exits_view()[w] == x;
                    assert(cpg.exits_view()[w] == before.exits_view()[w]);
                }
            }
            j = j + 1;
        }
        proof {
            assert(exits@.take(j as int) =~= exits@);
        }
    }

    /// The links and exits of function `function`, planned without changing
    /// the graph.
    fn plan_function(&self, cpg: &CodePropertyGraph, function: NodeId) -> (r: (Vec<Link>, Vec<NodeId>))
        requires
            cpg.wf(),
        ensures
            r.0@ == function_flow(self.config_view(), ast_of(cpg), function).links,
            r.1@ == function_flow(self.config_view(), ast_of(cpg), function).exits,
    {
        let n = cpg.node_count();
        let mut ctx = CfgContext { loop_stack: Vec::new(), try_stack: Vec::new(), on_path: Self::marks(n) };
        proof {
            assert(ctx.on_path@ =~= start_walk(n as nat).on_path);
            assert(frames(ctx.loop_stack@) =~= Seq::<LoopFrame>::empty());
            assert(handler_lists(ctx.try_stack@) =~= Seq::<Seq<NodeId>>::empty());
            assert(walk_of(&ctx) == start_walk(n as nat));
        }
        let children = Self::kids_of(cpg, function);
        let mut links: Vec<Link> = Vec::new();
        if children.len() > 0 {
            let body = children[children.len() - 1];
            links.push(Link { from: function, to: body, kind: CfgEdgeKind::Sequential });
            proof { assert(links@ =~= seq![Link { from: function, to: body, kind: CfgEdgeKind::Sequential }]); }
            let exits = self.process_node(cpg, body, &mut ctx, &mut links, n);
            (links, exits)
        } else {
            (links, Vec::new())
        }
    }

    /// Wires each link in turn, unless its edge is present or joins a node
    /// outside the graph.
    fn wire(cpg: &mut CodePropertyGraph, links: &Vec<Link>)
        requires
            old(cpg).wf(),
        ensures
            cfg_grown(final(cpg), old(cpg)),
            final(cpg).edges_view() == with_links(old(cpg).edges_view(), links@, old(cpg).nodes_view().len()),
    {
        proof {
            lemma_cfg_grown_refl(cpg);
            assert(links@.take(0) =~= Seq::<Link>::empty());
        }
        let mut j: usize = 0;
        while j < links.len()
            invariant
                cfg_grown(cpg, old(cpg)),
                cpg.edges_view() == with_links(old(cpg).edges_view(), links@.take(j as int), old(cpg).nodes_view().len()),
                j <= links@.len(),
            decreases links@.len() - j,
        {
            let ghost g = *cpg;
            let l = links[j];
            Self::link(cpg, l.from, l.to, l.kind);
            proof {
                lemma_cfg_grown_trans(old(cpg), &g, cpg);
                assert(links@.take(j + 1).drop_last() =~= links@.take(j as int));
            }
            j = j + 1;
        }
        proof { assert(links@.take(j as int) =~= links@); }
    }

    /// `n` unset path marks.
    fn marks(n: usize) -> (r: Vec<bool>)
        ensures
            r@.len() == n,
            forall|i: int| 0 <= i < n ==> !r@[i],
    {
        let mut r: Vec<bool> = Vec::new();
        let mut i: usize = 0;
        while i < n
            invariant
                i <= n,
                r@.len() == i,
                forall|k: int| 0 <= k < i ==> !r@[k],
            decreases n - i,
        {
            r.push(false);
            i = i + 1;
        }
        r
    }

    /// The syntax-tree children of `id`, all nodes of the graph.
    fn kids_of(cpg: &CodePropertyGraph, id: NodeId) -> (r: Vec<NodeId>)
        requires
            cpg.wf(),
        ensures
            r@ == kids(cpg, id),
            r@ == (ast_of(cpg).children)(id),
            forall|k: int| 0 <= k < r@.len() ==> cpg.valid(#[trigger] r@[k]),
    {
        let r = cpg.ast_children(id);
        proof {
            assert forall|k: int| 0 <= k < r@.len() implies cpg.valid(#[trigger] r@[k]) by {
                lemma_select_member(cpg.edges_view(), sel_ast_child(id), r@[k]);
                assert(r@.contains(r@[k]));
                let w = choose|w: int| 0 <= w < cpg.edges_view().len() && sel_ast_child(id)(cpg.edges_view()[w]) == Some(r@[k]);
                assert(cpg.valid(cpg.edges_view()[w].target));
            }
        }
        r
    }

    /// Adds the control-flow edge `a -> b` labelled `k` unless present.
    fn link(cpg: &mut CodePropertyGraph, a: NodeId, b: NodeId, k: CfgEdgeKind)
        requires
            old(cpg).wf(),
        ensures
            cfg_grown(final(cpg), old(cpg)),
            final(cpg).edges_view() == if old(cpg).valid(a) && old(cpg).valid(b) && !old(cpg).has(flow(a, b, k)) {
                old(cpg).edges_view().push(flow(a, b, k))
            } else {
                old(cpg).edges_view()
            },
    {
        let ghost before = *cpg;
        let added = cpg.connect_unique(a, b, CpgEdgeKind::ControlFlow(k));
        proof {
            assert(cpg.edges_view().subrange(0, before.edges_view().len() as int) =~= before.edges_view());
            if added {
                assert forall|i: int, j: int| 0 <= i < j < cpg.edges_view().len() && before.edges_view().len() <= j implies
                    #[trigger] cpg.edges_view()[i] != #[trigger] cpg.edges_view()[j] by {
                    assert(cpg.edges_view()[i] == before.edges_view()[i]);
                    if cpg.edges_view()[i] == cpg.edges_view()[j] {
                        assert(before.has(cpg.edges_view()[j]));
                    }
                }
            }
        }
    }

    /// The kind of `id`, if it is a node.
    fn kind_of(cpg: &CodePropertyGraph, id: NodeId) -> (r: Option<&CpgNodeKind>)
        ensures
            r matches Some(k) ==> cpg.valid(id) && *k == cpg.at(id).kind && kind_at(ast_of(cpg), id) == Some(*k),
            r is None ==> !cpg.valid(id) && kind_at(ast_of(cpg), id) is None,
    {
        match cpg.node(id) {
            Some(n) => Some(&n.kind),
            None => None,
        }
    }

    /// Links from each of `exits` to `target` labelled `k`.
    fn link_all(plan: &mut Vec<Link>, exits: &Vec<NodeId>, target: NodeId, k: CfgEdgeKind)
        ensures
            final(plan)@ == old(plan)@ + fan_in(exits@, target, k),
    {
        let mut j: usize = 0;
        proof { assert(old(plan)@ + fan_in(exits@.take(0), target, k) =~= old(plan)@); }
        while j < exits.len()
            invariant
                j <= exits@.len(),
                plan@ == old(plan)@ + fan_in(exits@.take(j as int), target, k),
            decreases exits@.len() - j,
        {
            plan.push(Link { from: exits[j], to: target, kind: k });
            proof {
                assert(exits@.take(j + 1) =~= exits@.take(j as int).push(exits@[j as int]));
                lemma_fan_in_push(exits@.take(j as int), exits@[j as int], target, k);
                assert(plan@ =~= old(plan)@ + fan_in(exits@.take(j + 1), target, k));
            }
            j = j + 1;
        }
        proof { assert(exits@.take(j as int) =~= exits@); }
    }

    /// Links from `source` to each of `targets` labelled `k`.
    fn link_from(plan: &mut Vec<Link>, source: NodeId, targets: &Vec<NodeId>, k: CfgEdgeKind)
        ensures
            final(plan)@ == old(plan)@ + fan_out(source, targets@, k),
    {
        let mut j: usize = 0;
        proof { assert(old(plan)@ + fan_out(source, targets@.take(0), k) =~= old(plan)@); }
        while j < targets.len()
            invariant
                j <= targets@.len(),
                plan@ == old(plan)@ + fan_out(source, targets@.take(j as int), k),
            decreases targets@.len() - j,
        {
            plan.push(Link { from: source, to: targets[j], kind: k });
            proof {
                assert(targets@.take(j + 1) =~= targets@.take(j as int).push(targets@[j as int]));
                lemma_fan_out_push(source, targets@.take(j as int), targets@[j as int], k);
                assert(plan@ =~= old(plan)@ + fan_out(source, targets@.take(j + 1), k));
            }
            j = j + 1;
        }
        proof { assert(targets@.take(j as int) =~= targets@); }
    }

    /// Control flow through `id` and what it encloses; returns the nodes
    /// control leaves it from. A node already on the current descent (a
    /// cycle in a malformed tree) is not entered again.
    fn process_node(&self, cpg: &CodePropertyGraph, id: NodeId, ctx: &mut CfgContext, plan: &mut Vec<Link>, fuel: usize)
        -> (r: Vec<NodeId>)
        requires
            cpg.wf(),
            ctx_ok(old(ctx), cpg),
        ensures
            ctx_ok(final(ctx), cpg),
            ctx_kept(final(ctx), old(ctx)),
            ran(r@, final(plan)@, final(ctx), node_flow(self.config_view(), ast_of(cpg), id, walk_of(old(ctx)), old(plan)@, fuel as nat)),
        decreases fuel, 0nat,
    {
        proof { lemma_ctx_kept_refl(ctx); }
        let kind = match Self::kind_of(cpg, id) {
            Some(k) => k,
            None => return vec![id],
        };
        let i = id.0 as usize;
        if ctx.on_path[i] || fuel == 0 {
            return vec![id];
        }
        ctx.on_path.set(i, true);
        let ghost c1 = *ctx;
        proof {
            assert(walk_of(&c1) == with_marks(walk_of(old(ctx)), walk_of(old(ctx)).on_path.update(i as int, true)));
        }
        let exits = match kind {
            CpgNodeKind::Block { .. } => self.process_block(cpg, id, ctx, plan, fuel - 1),
            CpgNodeKind::If => self.process_if(cpg, id, ctx, plan, fuel - 1),
            CpgNodeKind::While => self.process_while(cpg, id, ctx, plan, fuel - 1),
            CpgNodeKind::For => self.process_for(cpg, id, ctx, plan, fuel - 1),
            CpgNodeKind::Loop => self.process_loop(cpg, id, ctx, plan, fuel - 1),
            CpgNodeKind::Match => self.process_match(cpg, id, ctx, plan, fuel - 1),
            CpgNodeKind::Return => self.process_return(cpg, id, ctx, plan, fuel - 1),
            CpgNodeKind::Break => Self::process_break(cpg, id, ctx, plan),
            CpgNodeKind::Continue => Self::process_continue(cpg, id, ctx, plan),
            CpgNodeKind::Try => self.process_try(cpg, id, ctx, plan, fuel - 1),
            CpgNodeKind::Throw => self.process_throw(cpg, id, ctx, plan, fuel - 1),
            CpgNodeKind::Call { .. } if self.config.include_call_edges => self.process_call(cpg, id, ctx, plan, fuel - 1),
            _ => self.process_sequential(cpg, id, ctx, plan, fuel - 1),
        };
        let ghost c2 = *ctx;
        ctx.on_path.set(i, false);
        proof {
            assert(ctx.on_path@ =~= old(ctx).on_path@);
            assert(walk_of(ctx) == with_marks(walk_of(&c2), walk_of(&c2).on_path.update(i as int, false)));
            assert forall|q: int| 0 <= q < old(ctx).loop_stack@.len() implies {
                &&& (#[trigger] ctx.loop_stack@[q]).loop_id == old(ctx).loop_stack@[q].loop_id
                &&& ctx.loop_stack@[q].continue_target == old(ctx).loop_stack@[q].continue_target
            } by {
                assert(c1.loop_stack@[q].loop_id == old(ctx).loop_stack@[q].loop_id);
            }
        }
        exits
    }

    /// Runs `process_node` over the children in order (no edges between
    /// them); returns the last child's exits.
    fn process_chain(&self, cpg: &CodePropertyGraph, children: &Vec<NodeId>, ctx: &mut CfgContext, plan: &mut Vec<Link>,
        fuel: usize) -> (r: Vec<NodeId>)
        requires
            cpg.wf(),
            ctx_ok(old(ctx), cpg),
        ensures
            ctx_ok(final(ctx), cpg),
            ctx_kept(final(ctx), old(ctx)),
            ran(r@, final(plan)@, final(ctx),
                chain_flow(self.config_view(), ast_of(cpg), children@, 0, Seq::empty(), walk_of(old(ctx)), old(plan)@, fuel as nat)),
        decreases fuel, 1nat,
    {
        let ghost cfg = self.config_view();
        let ghost a = ast_of(cpg);
        let mut exits: Vec<NodeId> = Vec::new();
        let mut k: usize = 0;
        proof { lemma_ctx_kept_refl(ctx); }
        while k < children.len()
            invariant
                cpg.wf(),
                ctx_ok(ctx, cpg),
                ctx_kept(ctx, old(ctx)),
                k <= children@.len(),
                cfg == self.config_view(),
                a == ast_of(cpg),
                chain_flow(cfg, a, children@, 0, Seq::empty(), walk_of(old(ctx)), old(plan)@, fuel as nat)
                    == chain_flow(cfg, a, children@, k as int, exits@, walk_of(ctx), plan@, fuel as nat),
            decreases children@.len() - k,
        {
            let ghost c = *ctx;
            exits = self.process_node(cpg, children[k], ctx, plan, fuel);
            proof { lemma_ctx_kept_trans(old(ctx), &c, ctx); }
            k = k + 1;
        }
        exits
    }

    /// Whether the node is a jump (`return`, `break`, `continue`, `throw`).
    fn is_terminator(cpg: &CodePropertyGraph, id: NodeId) -> (r: bool)
        ensures
            r == is_jump(ast_of(cpg), id),
    {
        match Self::kind_of(cpg, id) {
            Some(CpgNodeKind::Return) | Some(CpgNodeKind::Break) | Some(CpgNodeKind::Continue) | Some(CpgNodeKind::Throw) => true,
            _ => false,
        }
    }

    /// Whether the node is a match arm.
    fn is_match_arm(cpg: &CodePropertyGraph, id: NodeId) -> (r: bool)
        ensures
            r == is_arm(ast_of(cpg), id),
    {
        match Self::kind_of(cpg, id) {
            Some(CpgNodeKind::MatchArm) => true,
            _ => false,
        }
    }

    /// Where the `false` branch of a conditional goes.
    fn else_branch(cpg: &CodePropertyGraph, x: NodeId) -> (r: NodeId)
        requires
            cpg.wf(),
        ensures
            r == else_target(ast_of(cpg), x),
    {
        match Self::kind_of(cpg, x) {
            Some(CpgNodeKind::Else) => {
                let inner = Self::kids_of(cpg, x);
                if inner.len() > 0 { inner[0] } else { x }
            },
            _ => x,
        }
    }

    /// A block: its statements in order; a jump ends the fall-through, and the
    /// block's exits are the jumps' exits plus the last statement's.
    fn process_block(&self, cpg: &CodePropertyGraph, id: NodeId, ctx: &mut CfgContext, plan: &mut Vec<Link>, fuel: usize)
        -> (r: Vec<NodeId>)
        requires
            cpg.wf(),
            ctx_ok(old(ctx), cpg),
        ensures
            ctx_ok(final(ctx), cpg),
            ctx_kept(final(ctx), old(ctx)),
            ran(r@, final(plan)@, final(ctx), block_flow(self.config_view(), ast_of(cpg), id, walk_of(old(ctx)), old(plan)@, fuel as nat)),
        decreases fuel, 2nat,
    {
        let ghost cfg = self.config_view();
        let ghost a = ast_of(cpg);
        let children = Self::kids_of(cpg, id);
        proof { lemma_ctx_kept_refl(ctx); }
        if children.len() == 0 {
            return vec![id];
        }
        plan.push(Link { from: id, to: children[0], kind: CfgEdgeKind::Sequential });
        let mut current: Vec<NodeId> = Vec::new();
        let mut all: Vec<NodeId> = Vec::new();
        let mut terminated = false;
        let mut i: usize = 0;
        while i < children.len()
            invariant
                cpg.wf(),
                ctx_ok(ctx, cpg),
                ctx_kept(ctx, old(ctx)),
                i <= children@.len(),
                cfg == self.config_view(),
                a == ast_of(cpg),
                children@ == (a.children)(id),
                block_flow(cfg, a, id, walk_of(old(ctx)), old(plan)@, fuel as nat)
                    == block_steps(cfg, a, id, children@, i as int, current@, all@, terminated, walk_of(ctx), plan@, fuel as nat),
            decreases children@.len() - i,
        {
            let child = children[i];
            Self::link_all(plan, &current, child, CfgEdgeKind::Sequential);
            let ghost c = *ctx;
            let child_exits = self.process_node(cpg, child, ctx, plan, fuel);
            proof { lemma_ctx_kept_trans(old(ctx), &c, ctx); }
            if Self::is_terminator(cpg, child) {
                let mut moved = child_exits;
                all.append(&mut moved);
                terminated = true;
                if i + 1 < children.len() {
                    current = Vec::new();
                }
            } else {
                current = child_exits;
            }
            i = i + 1;
        }
        if !terminated {
            all.append(&mut current);
        }
        if all.len() == 0 { vec![id] } else { all }
    }

    /// A conditional: condition, then the `true` branch, and the `false`
    /// branch (through an `else` wrapper) when there is one.
    fn process_if(&self, cpg: &CodePropertyGraph, id: NodeId, ctx: &mut CfgContext, plan: &mut Vec<Link>, fuel: usize)
        -> (r: Vec<NodeId>)
        requires
            cpg.wf(),
            ctx_ok(old(ctx), cpg),
        ensures
            ctx_ok(final(ctx), cpg),
            ctx_kept(final(ctx), old(ctx)),
            ran(r@, final(plan)@, final(ctx), if_flow(self.config_view(), ast_of(cpg), id, walk_of(old(ctx)), old(plan)@, fuel as nat)),
        decreases fuel, 2nat,
    {
        let children = Self::kids_of(cpg, id);
        proof { lemma_ctx_kept_refl(ctx); }
        if children.len() == 0 {
            return vec![id];
        }
        if children.len() == 1 {
            plan.push(Link { from: id, to: children[0], kind: CfgEdgeKind::Sequential });
            return vec![children[0]];
        }
        let condition = children[0];
        let then_branch = children[1];
        plan.push(Link { from: id, to: condition, kind: CfgEdgeKind::Sequential });
        plan.push(Link { from: condition, to: then_branch, kind: CfgEdgeKind::ConditionalTrue });
        let ghost c = *ctx;
        let mut exits = self.process_node(cpg, then_branch, ctx, plan, fuel);
        proof { lemma_ctx_kept_trans(old(ctx), &c, ctx); }
        if children.len() == 2 {
            exits.push(condition);
        } else {
            let actual_else = Self::else_branch(cpg, children[2]);
            plan.push(Link { from: condition, to: actual_else, kind: CfgEdgeKind::ConditionalFalse });
            let ghost c3 = *ctx;
            let mut else_exits = self.process_node(cpg, actual_else, ctx, plan, fuel);
            proof { lemma_ctx_kept_trans(old(ctx), &c3, ctx); }
            exits.append(&mut else_exits);
        }
        if exits.len() == 0 { vec![id] } else { exits }
    }

    /// Opens a loop frame.
    fn push_loop(ctx: &mut CfgContext, loop_id: NodeId, continue_target: NodeId)
        ensures
            final(ctx).on_path@ == old(ctx).on_path@,
            final(ctx).try_stack@ == old(ctx).try_stack@,
            final(ctx).loop_stack@.len() == old(ctx).loop_stack@.len() + 1,
            forall|i: int| 0 <= i < old(ctx).loop_stack@.len() ==> #[trigger] final(ctx).loop_stack@[i] == old(ctx).loop_stack@[i],
            walk_of(final(ctx)) == (Walk {
                on_path: walk_of(old(ctx)).on_path,
                loops: walk_of(old(ctx)).loops.push(LoopFrame { loop_id, continue_target, breaks: Seq::empty() }),
                tries: walk_of(old(ctx)).tries,
            }),
    {
        let frame = LoopContext { loop_id, continue_target, break_targets: Vec::new() };
        proof { assert(frame_of(frame) == LoopFrame { loop_id, continue_target, breaks: Seq::empty() }); }
        ctx.loop_stack.push(frame);
        proof {
            assert(frames(ctx.loop_stack@) =~= frames(old(ctx).loop_stack@).push(frame_of(frame)));
        }
    }

    /// Closes the innermost loop frame and returns its breaks.
    fn pop_loop(ctx: &mut CfgContext) -> (r: Vec<NodeId>)
        requires
            old(ctx).loop_stack@.len() > 0,
        ensures
            final(ctx).on_path@ == old(ctx).on_path@,
            final(ctx).try_stack@ == old(ctx).try_stack@,
            final(ctx).loop_stack@ == old(ctx).loop_stack@.drop_last(),
            r@ == walk_of(old(ctx)).loops.last().breaks,
            walk_of(final(ctx)) == (Walk {
                on_path: walk_of(old(ctx)).on_path,
                loops: walk_of(old(ctx)).loops.drop_last(),
                tries: walk_of(old(ctx)).tries,
            }),
    {
        proof {
            assert(frames(old(ctx).loop_stack@.drop_last()) =~= frames(old(ctx).loop_stack@).drop_last());
        }
        match ctx.loop_stack.pop() {
            Some(l) => l.break_targets,
            None => Vec::new(),
        }
    }

    /// A loop whose body re-enters at `header`: the body's exits flow back to
    /// the header, and `continue`s go to `continue_target`; returns the breaks.
    fn loop_body(&self, cpg: &CodePropertyGraph, id: NodeId, body: NodeId, header: NodeId, continue_target: NodeId,
        ctx: &mut CfgContext, plan: &mut Vec<Link>, fuel: usize) -> (r: Vec<NodeId>)
        requires
            cpg.wf(),
            ctx_ok(old(ctx), cpg),
        ensures
            ctx_ok(final(ctx), cpg),
            ctx_kept(final(ctx), old(ctx)),
            ran(r@, final(plan)@, final(ctx), loop_body_flow(self.config_view(), ast_of(cpg), id, body, header, continue_target,
                walk_of(old(ctx)), old(plan)@, fuel as nat)),
        decreases fuel, 1nat,
    {
        Self::push_loop(ctx, id, continue_target);
        let ghost c1 = *ctx;
        let body_exits = self.process_node(cpg, body, ctx, plan, fuel);
        Self::link_all(plan, &body_exits, header, CfgEdgeKind::LoopBack);
        let ghost c2 = *ctx;
        let breaks = Self::pop_loop(ctx);
        proof {
            assert forall|q: int| 0 <= q < old(ctx).loop_stack@.len() implies {
                &&& (#[trigger] ctx.loop_stack@[q]).loop_id == old(ctx).loop_stack@[q].loop_id
                &&& ctx.loop_stack@[q].continue_target == old(ctx).loop_stack@[q].continue_target
            } by {
                assert(c1.loop_stack@[q] == old(ctx).loop_stack@[q]);
                assert(ctx.loop_stack@[q] == c2.loop_stack@[q]);
            }
            assert forall|q: int| 0 <= q < old(ctx).try_stack@.len() implies (#[trigger] ctx.try_stack@[q])@ == old(ctx).try_stack@[q]@ by {
                assert(c1.try_stack@[q] == old(ctx).try_stack@[q]);
            }
        }
        breaks
    }

    /// A `while` loop: loop to condition, condition to body when true, body
    /// back to the condition; exits are the condition (when false) and the breaks.
    fn process_while(&self, cpg: &CodePropertyGraph, id: NodeId, ctx: &mut CfgContext, plan: &mut Vec<Link>, fuel: usize)
        -> (r: Vec<NodeId>)
        requires
            cpg.wf(),
            ctx_ok(old(ctx), cpg),
        ensures
            ctx_ok(final(ctx), cpg),
            ctx_kept(final(ctx), old(ctx)),
            ran(r@, final(plan)@, final(ctx), while_flow(self.config_view(), ast_of(cpg), id, walk_of(old(ctx)), old(plan)@, fuel as nat)),
        decreases fuel, 2nat,
    {
        let children = Self::kids_of(cpg, id);
        proof { lemma_ctx_kept_refl(ctx); }
        if children.len() < 2 {
            return vec![id];
        }
        let condition = children[0];
        let body = children[1];
        plan.push(Link { from: id, to: condition, kind: CfgEdgeKind::Sequential });
        plan.push(Link { from: condition, to: body, kind: CfgEdgeKind::ConditionalTrue });
        let mut breaks = self.loop_body(cpg, id, body, condition, condition, ctx, plan, fuel);
        let mut exits: Vec<NodeId> = vec![condition];
        exits.append(&mut breaks);
        exits
    }

    /// A `for` loop: the loop node is its own header; it enters its body (the
    /// last child) when true and the body flows back to it; exits are the loop
    /// node and the breaks.
    fn process_for(&self, cpg: &CodePropertyGraph, id: NodeId, ctx: &mut CfgContext, plan: &mut Vec<Link>, fuel: usize)
        -> (r: Vec<NodeId>)
        requires
            cpg.wf(),
            ctx_ok(old(ctx), cpg),
        ensures
            ctx_ok(final(ctx), cpg),
            ctx_kept(final(ctx), old(ctx)),
            ran(r@, final(plan)@, final(ctx), for_flow(self.config_view(), ast_of(cpg), id, walk_of(old(ctx)), old(plan)@, fuel as nat)),
        decreases fuel, 2nat,
    {
        let children = Self::kids_of(cpg, id);
        proof { lemma_ctx_kept_refl(ctx); }
        if children.len() == 0 {
            return vec![id];
        }
        let body = children[children.len() - 1];
        plan.push(Link { from: id, to: body, kind: CfgEdgeKind::ConditionalTrue });
        let mut breaks = self.loop_body(cpg, id, body, id, id, ctx, plan, fuel);
        let mut exits: Vec<NodeId> = vec![id];
        exits.append(&mut breaks);
        exits
    }

    /// An unconditional loop: it enters its body, the body flows back to it,
    /// and it is left only by a break.
    fn process_loop(&self, cpg: &CodePropertyGraph, id: NodeId, ctx: &mut CfgContext, plan: &mut Vec<Link>, fuel: usize)
        -> (r: Vec<NodeId>)
        requires
            cpg.wf(),
            ctx_ok(old(ctx), cpg),
        ensures
            ctx_ok(final(ctx), cpg),
            ctx_kept(final(ctx), old(ctx)),
            ran(r@, final(plan)@, final(ctx), loop_flow(self.config_view(), ast_of(cpg), id, walk_of(old(ctx)), old(plan)@, fuel as nat)),
        decreases fuel, 2nat,
    {
        let children = Self::kids_of(cpg, id);
        proof { lemma_ctx_kept_refl(ctx); }
        if children.len() == 0 {
            return vec![id];
        }
        let body = children[0];
        plan.push(Link { from: id, to: body, kind: CfgEdgeKind::Sequential });
        self.loop_body(cpg, id, body, id, id, ctx, plan, fuel)
    }

    /// A match: the scrutinee (a first child that is not an arm) is entered
    /// first, then every arm is a case of it (or of the match when there is no
    /// scrutinee) flowing into the arm's body.
    fn process_match(&self, cpg: &CodePropertyGraph, id: NodeId, ctx: &mut CfgContext, plan: &mut Vec<Link>, fuel: usize)
        -> (r: Vec<NodeId>)
        requires
            cpg.wf(),
            ctx_ok(old(ctx), cpg),
        ensures
            ctx_ok(final(ctx), cpg),
            ctx_kept(final(ctx), old(ctx)),
            ran(r@, final(plan)@, final(ctx), match_flow(self.config_view(), ast_of(cpg), id, walk_of(old(ctx)), old(plan)@, fuel as nat)),
        decreases fuel, 2nat,
    {
        let ghost cfg = self.config_view();
        let ghost a = ast_of(cpg);
        let children = Self::kids_of(cpg, id);
        proof { lemma_ctx_kept_refl(ctx); }
        if children.len() == 0 {
            return vec![id];
        }
        let mut exits: Vec<NodeId> = Vec::new();
        let mut source = id;
        let mut start: usize = 0;
        if children.len() > 1 {
            let first = children[0];
            if !Self::is_match_arm(cpg, first) {
                plan.push(Link { from: id, to: first, kind: CfgEdgeKind::Sequential });
                source = first;
                start = 1;
            }
        }
        let mut k: usize = start;
        while k < children.len()
            invariant
                cpg.wf(),
                ctx_ok(ctx, cpg),
                ctx_kept(ctx, old(ctx)),
                k <= children@.len(),
                cfg == self.config_view(),
                a == ast_of(cpg),
                children@ == (a.children)(id),
                match_flow(cfg, a, id, walk_of(old(ctx)), old(plan)@, fuel as nat)
                    == match_arms(cfg, a, id, children@, k as int, source, exits@, walk_of(ctx), plan@, fuel as nat),
            decreases children@.len() - k,
        {
            let arm = children[k];
            if Self::is_match_arm(cpg, arm) {
                plan.push(Link { from: source, to: arm, kind: CfgEdgeKind::Case });
                let arm_children = Self::kids_of(cpg, arm);
                if arm_children.len() > 0 {
                    let arm_body = arm_children[arm_children.len() - 1];
                    plan.push(Link { from: arm, to: arm_body, kind: CfgEdgeKind::Sequential });
                    let ghost c = *ctx;
                    let mut arm_exits = self.process_node(cpg, arm_body, ctx, plan, fuel);
                    proof { lemma_ctx_kept_trans(old(ctx), &c, ctx); }
                    exits.append(&mut arm_exits);
                } else {
                    exits.push(arm);
                }
            }
            k = k + 1;
        }
        if exits.len() == 0 { vec![id] } else { exits }
    }

    /// A return: it evaluates its value first, then leaves the function.
    fn process_return(&self, cpg: &CodePropertyGraph, id: NodeId, ctx: &mut CfgContext, plan: &mut Vec<Link>, fuel: usize)
        -> (r: Vec<NodeId>)
        requires
            cpg.wf(),
            ctx_ok(old(ctx), cpg),
        ensures
            ctx_ok(final(ctx), cpg),
            ctx_kept(final(ctx), old(ctx)),
            ran(r@, final(plan)@, final(ctx), return_flow(self.config_view(), ast_of(cpg), id, walk_of(old(ctx)), old(plan)@, fuel as nat)),
        decreases fuel, 2nat,
    {
        let children = Self::kids_of(cpg, id);
        proof { lemma_ctx_kept_refl(ctx); }
        if children.len() > 0 {
            let expr = children[0];
            plan.push(Link { from: id, to: expr, kind: CfgEdgeKind::Sequential });
            let _ = self.process_node(cpg, expr, ctx, plan, fuel);
        }
        vec![id]
    }

    /// A break: it jumps to the innermost loop and is recorded as one of its exits.
    fn process_break(cpg: &CodePropertyGraph, id: NodeId, ctx: &mut CfgContext, plan: &mut Vec<Link>) -> (r: Vec<NodeId>)
        requires
            cpg.wf(),
            ctx_ok(old(ctx), cpg),
        ensures
            ctx_ok(final(ctx), cpg),
            ctx_kept(final(ctx), old(ctx)),
            ran(r@, final(plan)@, final(ctx), break_flow(id, walk_of(old(ctx)), old(plan)@)),
    {
        proof { lemma_ctx_kept_refl(ctx); }
        let n = ctx.loop_stack.len();
        if n > 0 {
            let mut frame = LoopContext { loop_id: NodeId(0), continue_target: NodeId(0), break_targets: Vec::new() };
            ctx.loop_stack.set_and_swap(n - 1, &mut frame);
            frame.break_targets.push(id);
            let target = frame.loop_id;
            let ghost moved = frame;
            ctx.loop_stack.set_and_swap(n - 1, &mut frame);
            plan.push(Link { from: id, to: target, kind: CfgEdgeKind::Break });
            proof {
                let top = walk_of(old(ctx)).loops.last();
                assert(ctx.loop_stack@ == old(ctx).loop_stack@.update(n - 1, moved));
                assert(frame_of(moved) == LoopFrame { loop_id: top.loop_id, continue_target: top.continue_target, breaks: top.breaks.push(id) });
                assert(frames(ctx.loop_stack@) =~= frames(old(ctx).loop_stack@).update(n - 1, frame_of(moved)));
                assert forall|q: int| 0 <= q < old(ctx).loop_stack@.len() implies {
                    &&& (#[trigger] ctx.loop_stack@[q]).loop_id == old(ctx).loop_stack@[q].loop_id
                    &&& ctx.loop_stack@[q].continue_target == old(ctx).loop_stack@[q].continue_target
                } by {
                    if q < n - 1 {
                        assert(ctx.loop_stack@[q] == old(ctx).loop_stack@[q]);
                    }
                }
            }
        }
        Vec::new()
    }

    /// A continue: it jumps to the innermost loop's continue target.
    fn process_continue(cpg: &CodePropertyGraph, id: NodeId, ctx: &mut CfgContext, plan: &mut Vec<Link>) -> (r: Vec<NodeId>)
        requires
            cpg.wf(),
            ctx_ok(old(ctx), cpg),
        ensures
            ctx_ok(final(ctx), cpg),
            ctx_kept(final(ctx), old(ctx)),
            ran(r@, final(plan)@, final(ctx), continue_flow(id, walk_of(old(ctx)), old(plan)@)),
    {
        proof { lemma_ctx_kept_refl(ctx); }
        let n = ctx.loop_stack.len();
        if n > 0 {
            let target = ctx.loop_stack[n - 1].continue_target;
            plan.push(Link { from: id, to: target, kind: CfgEdgeKind::Continue });
        }
        Vec::new()
    }

    /// A try: the first block is the body, run with the catch handlers as the
    /// targets of throws; the body and each handler flow into the `finally`
    /// block when there is one, whose exits are then the try's exits.
    #[verifier::rlimit(40)]
    fn process_try(&self, cpg: &CodePropertyGraph, id: NodeId, ctx: &mut CfgContext, plan: &mut Vec<Link>, fuel: usize)
        -> (r: Vec<NodeId>)
        requires
            cpg.wf(),
            ctx_ok(old(ctx), cpg),
        ensures
            ctx_ok(final(ctx), cpg),
            ctx_kept(final(ctx), old(ctx)),
            ran(r@, final(plan)@, final(ctx), try_flow(self.config_view(), ast_of(cpg), id, walk_of(old(ctx)), old(plan)@, fuel as nat)),
        decreases fuel, 3nat,
    {
        if !self.config.include_exceptions {
            return self.process_sequential(cpg, id, ctx, plan, fuel);
        }
        let ghost cfg = self.config_view();
        let ghost a = ast_of(cpg);
        let children = Self::kids_of(cpg, id);
        proof { lemma_ctx_kept_refl(ctx); }
        let mut exits: Vec<NodeId> = Vec::new();
        let mut try_body: Option<NodeId> = None;
        let mut catches: Vec<NodeId> = Vec::new();
        let mut finally_block: Option<NodeId> = None;
        let mut k: usize = 0;
        proof { assert(children@.take(0) =~= Seq::<NodeId>::empty()); }
        while k < children.len()
            invariant
                k <= children@.len(),
                a == ast_of(cpg),
                (try_body, catches@, finally_block) == try_parts(a, children@.take(k as int)),
            decreases children@.len() - k,
        {
            let child = children[k];
            proof {
                assert(children@.take(k + 1).drop_last() =~= children@.take(k as int));
                assert(children@.take(k + 1).last() == child);
            }
            match Self::kind_of(cpg, child) {
                Some(CpgNodeKind::Block { .. }) => {
                    if try_body.is_none() {
                        try_body = Some(child);
                    }
                },
                Some(CpgNodeKind::Catch) => catches.push(child),
                Some(CpgNodeKind::Finally) => finally_block = Some(child),
                _ => {},
            }
            k = k + 1;
        }
        proof { assert(children@.take(k as int) =~= children@); }
        let ghost w0 = walk_of(ctx);
        let ghost p0 = plan@;
        if let Some(body) = try_body {
            plan.push(Link { from: id, to: body, kind: CfgEdgeKind::Sequential });
            let ghost c = *ctx;
            ctx.try_stack.push(copy_ids(&catches));
            proof {
                assert(handler_lists(ctx.try_stack@) =~= handler_lists(c.try_stack@).push(catches@));
            }
            let ghost c1 = *ctx;
            let mut body_exits = self.process_node(cpg, body, ctx, plan, fuel);
            let ghost c2 = *ctx;
            ctx.try_stack.pop();
            proof {
                assert(handler_lists(ctx.try_stack@) =~= handler_lists(c2.try_stack@).drop_last());
                assert forall|q: int| 0 <= q < c.try_stack@.len() implies (#[trigger] ctx.try_stack@[q])@ == c.try_stack@[q]@ by {
                    assert(c2.try_stack@[q]@ == c1.try_stack@[q]@);
                    assert(c1.try_stack@[q] == c.try_stack@[q]);
                }
                assert forall|q: int| 0 <= q < c.loop_stack@.len() implies {
                    &&& (#[trigger] ctx.loop_stack@[q]).loop_id == c.loop_stack@[q].loop_id
                    &&& ctx.loop_stack@[q].continue_target == c.loop_stack@[q].continue_target
                } by {
                    assert(c2.loop_stack@[q].loop_id == c1.loop_stack@[q].loop_id);
                }
                assert(ctx_kept(ctx, &c));
                lemma_ctx_kept_trans(old(ctx), &c, ctx);
            }
            let ghost be = body_exits@;
            match finally_block {
                Some(fin) => Self::link_all(plan, &body_exits, fin, CfgEdgeKind::Sequential),
                None => {
                    exits.append(&mut body_exits);
                    proof { assert(exits@ =~= be); }
                },
            }
        }
        let ghost s = match try_body {
            Some(b) => {
                let o = node_flow(cfg, a, b, Walk { on_path: w0.on_path, loops: w0.loops, tries: w0.tries.push(catches@) },
                    p0.push(Link { from: id, to: b, kind: CfgEdgeKind::Sequential }), fuel as nat);
                let after = Walk { on_path: o.walk.on_path, loops: o.walk.loops, tries: o.walk.tries.drop_last() };
                match finally_block {
                    Some(f) => Flow { links: o.links + fan_in(o.exits, f, CfgEdgeKind::Sequential), exits: Seq::empty(), walk: after },
                    None => Flow { links: o.links, exits: o.exits, walk: after },
                }
            },
            None => Flow { links: p0, exits: Seq::empty(), walk: w0 },
        };
        proof {
            assert(exits@ == s.exits);
            assert(plan@ == s.links);
            assert(walk_of(ctx) == s.walk);
        }
        let mut k: usize = 0;
        while k < catches.len()
            invariant
                cpg.wf(),
                ctx_ok(ctx, cpg),
                ctx_kept(ctx, old(ctx)),
                k <= catches@.len(),
                cfg == self.config_view(),
                a == ast_of(cpg),
                catch_flows(cfg, a, catches@, 0, finally_block, s.exits, s.walk, s.links, fuel as nat)
                    == catch_flows(cfg, a, catches@, k as int, finally_block, exits@, walk_of(ctx), plan@, fuel as nat),
            decreases catches@.len() - k,
        {
            let catch = catches[k];
            let catch_children = Self::kids_of(cpg, catch);
            if catch_children.len() > 0 {
                let catch_body = catch_children[catch_children.len() - 1];
                plan.push(Link { from: catch, to: catch_body, kind: CfgEdgeKind::Sequential });
                let ghost c = *ctx;
                let mut catch_exits = self.process_node(cpg, catch_body, ctx, plan, fuel);
                proof { lemma_ctx_kept_trans(old(ctx), &c, ctx); }
                match finally_block {
                    Some(fin) => Self::link_all(plan, &catch_exits, fin, CfgEdgeKind::Sequential),
                    None => exits.append(&mut catch_exits),
                }
            }
            k = k + 1;
        }
        if let Some(fin) = finally_block {
            let ghost c = *ctx;
            let mut fin_exits = self.process_node(cpg, fin, ctx, plan, fuel);
            proof { lemma_ctx_kept_trans(old(ctx), &c, ctx); }
            exits.append(&mut fin_exits);
        }
        if exits.len() == 0 { vec![id] } else { exits }
    }

    /// A throw: it evaluates its operand, then jumps to every catch handler of
    /// the innermost try.
    fn process_throw(&self, cpg: &CodePropertyGraph, id: NodeId, ctx: &mut CfgContext, plan: &mut Vec<Link>, fuel: usize)
        -> (r: Vec<NodeId>)
        requires
            cpg.wf(),
            ctx_ok(old(ctx), cpg),
        ensures
            ctx_ok(final(ctx), cpg),
            ctx_kept(final(ctx), old(ctx)),
            ran(r@, final(plan)@, final(ctx), throw_flow(self.config_view(), ast_of(cpg), id, walk_of(old(ctx)), old(plan)@, fuel as nat)),
        decreases fuel, 2nat,
    {
        proof { lemma_ctx_kept_refl(ctx); }
        if !self.config.include_exceptions {
            return vec![id];
        }
        let children = Self::kids_of(cpg, id);
        if children.len() > 0 {
            let expr = children[0];
            plan.push(Link { from: id, to: expr, kind: CfgEdgeKind::Sequential });
            let _ = self.process_node(cpg, expr, ctx, plan, fuel);
        }
        let t = ctx.try_stack.len();
        if t > 0 {
            let handlers = copy_ids(&ctx.try_stack[t - 1]);
            Self::link_from(plan, id, &handlers, CfgEdgeKind::Throw);
        }
        Vec::new()
    }

    /// A call: it evaluates its arguments in order, then flows to its
    /// resolved target, if any.
    fn process_call(&self, cpg: &CodePropertyGraph, id: NodeId, ctx: &mut CfgContext, plan: &mut Vec<Link>, fuel: usize)
        -> (r: Vec<NodeId>)
        requires
            cpg.wf(),
            ctx_ok(old(ctx), cpg),
        ensures
            ctx_ok(final(ctx), cpg),
            ctx_kept(final(ctx), old(ctx)),
            ran(r@, final(plan)@, final(ctx), call_flow(self.config_view(), ast_of(cpg), id, walk_of(old(ctx)), old(plan)@, fuel as nat)),
        decreases fuel, 2nat,
    {
        let ghost cfg = self.config_view();
        let ghost a = ast_of(cpg);
        let children = Self::kids_of(cpg, id);
        proof { lemma_ctx_kept_refl(ctx); }
        let mut k: usize = 0;
        while k < children.len()
            invariant
                cpg.wf(),
                ctx_ok(ctx, cpg),
                ctx_kept(ctx, old(ctx)),
                k <= children@.len(),
                cfg == self.config_view(),
                a == ast_of(cpg),
                children@ == (a.children)(id),
                call_args(cfg, a, id, children@, 0, walk_of(old(ctx)), old(plan)@, fuel as nat)
                    == call_args(cfg, a, id, children@, k as int, walk_of(ctx), plan@, fuel as nat),
            decreases children@.len() - k,
        {
            plan.push(Link { from: id, to: children[k], kind: CfgEdgeKind::Sequential });
            let ghost c = *ctx;
            let _ = self.process_node(cpg, children[k], ctx, plan, fuel);
            proof { lemma_ctx_kept_trans(old(ctx), &c, ctx); }
            k = k + 1;
        }
        let target = match Self::kind_of(cpg, id) {
            Some(CpgNodeKind::Call { target: Some(t), .. }) => Some(*t),
            _ => None,
        };
        if let Some(t) = target {
            plan.push(Link { from: id, to: t, kind: CfgEdgeKind::Call });
        }
        vec![id]
    }

    /// Any other node: it flows into its first child and its children run in
    /// order; its exits are the last child's, or itself when it has none.
    fn process_sequential(&self, cpg: &CodePropertyGraph, id: NodeId, ctx: &mut CfgContext, plan: &mut Vec<Link>, fuel: usize)
        -> (r: Vec<NodeId>)
        requires
            cpg.wf(),
            ctx_ok(old(ctx), cpg),
        ensures
            ctx_ok(final(ctx), cpg),
            ctx_kept(final(ctx), old(ctx)),
            ran(r@, final(plan)@, final(ctx), seq_flow(self.config_view(), ast_of(cpg), id, walk_of(old(ctx)), old(plan)@, fuel as nat)),
        decreases fuel, 2nat,
    {
        let children = Self::kids_of(cpg, id);
        proof { lemma_ctx_kept_refl(ctx); }
        if children.len() == 0 {
            return vec![id];
        }
        plan.push(Link { from: id, to: children[0], kind: CfgEdgeKind::Sequential });
        self.process_chain(cpg, &children, ctx, plan, fuel)
    }
}

// ---------------------------------------------------------------------------
// Basic blocks
// ---------------------------------------------------------------------------

/// A construct that transfers control: its successors start blocks.
pub open spec fn branches(k: CpgNodeKind) -> bool {
    k is If || k is While || k is For || k is Loop || k is Match || k is Return || k is Break || k is Continue
}

/// `v` is the target of a conditional or loop control-flow edge.
pub open spec fn branch_target(g: CodePropertyGraph, v: NodeId) -> bool {
    exists|k: int| 0 <= k < g.edges_view().len() && #[trigger] g.edges_view()[k].target == v
        && (g.edges_view()[k].kind matches CpgEdgeKind::ControlFlow(c) && (c.spec_is_conditional() || c.spec_is_loop()))
}

/// `v` follows a branching construct below `function`.
pub open spec fn follows_branch(g: CodePropertyGraph, function: NodeId, v: NodeId) -> bool {
    exists|k: int| 0 <= k < g.edges_view().len() && #[trigger] g.edges_view()[k].target == v
        && g.edges_view()[k].kind is ControlFlow
        && below_ids(g, function, g.nodes_view().len() as int).contains(g.edges_view()[k].source)
        && branches(g.at(g.edges_view()[k].source).kind)
}

/// `v` starts a basic block of `function`: the function itself, a branch
/// target below it, or a successor of a branching construct below it.
pub open spec fn is_leader(g: CodePropertyGraph, function: NodeId, v: NodeId) -> bool {
    ||| v == function
    ||| below_ids(g, function, g.nodes_view().len() as int).contains(v) && branch_target(g, v)
    ||| follows_branch(g, function, v)
}

/// The nodes a block continues with after `cur`: while `cur` has exactly one
/// control-flow successor, sequential and no leader, that successor joins;
/// at most `fuel` of them.
pub open spec fn block_rest(g: CodePropertyGraph, function: NodeId, cur: NodeId, fuel: nat) -> Seq<NodeId>
    decreases fuel,
{
    if fuel == 0 {
        Seq::empty()
    } else {
        let succ = select(g.edges_view(), sel_cfg_succ(cur));
        if succ.len() == 1 && succ[0].1 == CfgEdgeKind::Sequential && !is_leader(g, function, succ[0].0) {
            seq![succ[0].0] + block_rest(g, function, succ[0].0, (fuel - 1) as nat)
        } else {
            Seq::empty()
        }
    }
}

/// The basic block led by `leader`.
pub open spec fn block_of(g: CodePropertyGraph, function: NodeId, leader: NodeId) -> Seq<NodeId> {
    seq![leader] + block_rest(g, function, leader, g.nodes_view().len() as nat)
}

/// Edge `k` is a control-flow edge from `u` to the node with id `x`.
pub open spec fn cf_edge_to(g: CodePropertyGraph, k: int, u: NodeId, x: int) -> bool {
    &&& 0 <= k < g.edges_view().len()
    &&& g.edges_view()[k].source == u
    &&& g.edges_view()[k].target.0 as int == x
    &&& g.edges_view()[k].kind is ControlFlow
}

/// Scanning node `u` below the function marks the node with id `x` a leader:
/// `u` is `x` and a branch target, or `u` branches with an edge to `x`.
pub open spec fn marks_leader(g: CodePropertyGraph, u: NodeId, x: int) -> bool {
    ||| u.0 as int == x && branch_target(g, u)
    ||| branches(g.at(u).kind) && exists|k: int| #[trigger] cf_edge_to(g, k, u, x)
}

/// Splits a function's control flow into basic blocks.
#[derive(Debug, Clone, Copy)]
pub struct BasicBlockIdentifier {}

impl Default for BasicBlockIdentifier {
    fn default() -> (r: BasicBlockIdentifier)
        ensures
            r == (BasicBlockIdentifier {}),
    {
        BasicBlockIdentifier {}
    }
}

impl BasicBlockIdentifier {
    /// An identifier.
    pub fn new() -> (r: BasicBlockIdentifier)
        ensures
            r == (BasicBlockIdentifier {}),
    {
        BasicBlockIdentifier {}
    }

    /// The basic blocks of `function`: each leader ([`is_leader`]) once, in id
    /// order, with its block ([`block_of`]). Growing a block stops after as
    /// many steps as there are nodes, so a cycle of plain successors is cut.
    pub fn identify(&self, cpg: &CodePropertyGraph, function: NodeId) -> (r: Vec<(NodeId, Vec<NodeId>)>)
        requires
            cpg.wf(),
        ensures
            forall|k: int| 0 <= k < r@.len() ==> is_leader(*cpg, function, (#[trigger] r@[k]).0)
                && r@[k].1@ == block_of(*cpg, function, r@[k].0),
            forall|v: NodeId| ((cpg.valid(function) && cpg.valid(v)) || v == function) && is_leader(*cpg, function, v) ==>
                exists|k: int| 0 <= k < r@.len() && (#[trigger] r@[k]).0 == v,
            forall|a: int, b: int| 0 <= a < b < r@.len() ==> r@[a].0 != r@[b].0,
    {
        let n = cpg.node_count();
        if function.0 as usize >= n {
            let block = self.grow_block(cpg, function, function, &Vec::new());
            let r = vec![(function, block)];
            proof {
                assert forall|v: NodeId| ((cpg.valid(function) && cpg.valid(v)) || v == function) && is_leader(*cpg, function, v) implies
                    exists|k: int| 0 <= k < r@.len() && (#[trigger] r@[k]).0 == v by {
                    assert(r@[0].0 == function);
                }
            }
            return r;
        }
        let leaders = self.leader_marks(cpg, function);
        let mut r: Vec<(NodeId, Vec<NodeId>)> = Vec::new();
        let mut v: usize = 0;
        while v < n
            invariant
                cpg.wf(),
                n == cpg.nodes_view().len(),
                (function.0 as int) < n,
                leaders@.len() == n,
                forall|x: int| 0 <= x < n ==> (#[trigger] leaders@[x] <==> is_leader(*cpg, function, NodeId(x as u32))),
                v <= n,
                forall|k: int| 0 <= k < r@.len() ==> is_leader(*cpg, function, (#[trigger] r@[k]).0)
                    && r@[k].1@ == block_of(*cpg, function, r@[k].0) && (r@[k].0.0 as int) < v,
                forall|w: NodeId| (w.0 as int) < v && #[trigger] is_leader(*cpg, function, w) ==>
                    exists|k: int| 0 <= k < r@.len() && (#[trigger] r@[k]).0 == w,
                forall|a: int, b: int| 0 <= a < b < r@.len() ==> r@[a].0.0 < r@[b].0.0,
            decreases n - v,
        {
            let ghost prev = r@;
            if leaders[v] {
                let id = NodeId(v as u32);
                let block = self.grow_block(cpg, function, id, &leaders);
                r.push((id, block));
                proof {
                    assert forall|w: NodeId| (w.0 as int) < v + 1 && #[trigger] is_leader(*cpg, function, w) implies
                        exists|k: int| 0 <= k < r@.len() && (#[trigger] r@[k]).0 == w by {
                        if (w.0 as int) < v {
                            let k = choose|k: int| 0 <= k < prev.len() && (#[trigger] prev[k]).0 == w;
                            assert(r@[k] == prev[k]);
                        } else {
                            assert(r@[r@.len() - 1].0 == w);
                        }
                    }
                }
            }
            v = v + 1;
        }
        proof {
            assert forall|w: NodeId| ((cpg.valid(function) && cpg.valid(w)) || w == function) && is_leader(*cpg, function, w) implies
                exists|k: int| 0 <= k < r@.len() && (#[trigger] r@[k]).0 == w by {
                assert((w.0 as int) < n);
            }
            assert forall|a: int, b: int| 0 <= a < b < r@.len() implies r@[a].0 != r@[b].0 by {
                assert(r@[a].0.0 < r@[b].0.0);
            }
        }
        r
    }

    /// Marks the leaders of `function` among the nodes.
    fn leader_marks(&self, cpg: &CodePropertyGraph, function: NodeId) -> (r: Vec<bool>)
        requires
            cpg.wf(),
            cpg.valid(function),
        ensures
            r@.len() == cpg.nodes_view().len(),
            forall|x: int| 0 <= x < r@.len() ==> (#[trigger] r@[x] <==> is_leader(*cpg, function, NodeId(x as u32))),
    {
        let n = cpg.node_count();
        let descendants = cpg.ast_descendants(function);
        let ghost below = descendants@;
        let mut mark: Vec<bool> = Vec::new();
        let mut i: usize = 0;
        while i < n
            invariant
                i <= n,
                mark@.len() == i,
                forall|x: int| 0 <= x < i ==> !#[trigger] mark@[x],
            decreases n - i,
        {
            mark.push(false);
            i = i + 1;
        }
        mark.set(function.0 as usize, true);
        let mut j: usize = 0;
        while j < descendants.len()
            invariant
                cpg.wf(),
                n == cpg.nodes_view().len(),
                below == descendants@,
                below == below_ids(*cpg, function, n as int),
                forall|k: int| 0 <= k < below.len() ==> cpg.valid(#[trigger] below[k]),
                mark@.len() == n,
                j <= below.len(),
                forall|x: int| 0 <= x < n ==> (#[trigger] mark@[x] <==> (x == function.0 as int
                    || exists|t: int| 0 <= t < j && #[trigger] marks_leader(*cpg, below[t], x))),
            decreases below.len() - j,
        {
            let u = descendants[j];
            let ghost before = mark@;
            let preds = cpg.cfg_predecessors(u);
            let mut p: usize = 0;
            let mut target = false;
            while p < preds.len()
                invariant
                    preds@ == select(cpg.edges_view(), sel_cfg_pred(u)),
                    p <= preds@.len(),
                    target == exists|q: int| 0 <= q < p && (preds@[q].1.spec_is_conditional() || preds@[q].1.spec_is_loop()),
                decreases preds@.len() - p,
            {
                let (_, kind) = preds[p];
                if kind.is_conditional() || kind.is_loop() {
                    target = true;
                }
                p = p + 1;
            }
            proof {
                assert(target == branch_target(*cpg, u)) by {
                    if target {
                        let q = choose|q: int| 0 <= q < p && (preds@[q].1.spec_is_conditional() || preds@[q].1.spec_is_loop());
                        assert(preds@.contains(preds@[q]));
                        lemma_select_member(cpg.edges_view(), sel_cfg_pred(u), preds@[q]);
                        let k = choose|k: int| 0 <= k < cpg.edges_view().len() && sel_cfg_pred(u)(cpg.edges_view()[k]) == Some(preds@[q]);
                        assert(cpg.edges_view()[k].target == u);
                    }
                    if branch_target(*cpg, u) {
                        let k = choose|k: int| 0 <= k < cpg.edges_view().len() && #[trigger] cpg.edges_view()[k].target == u
                            && (cpg.edges_view()[k].kind matches CpgEdgeKind::ControlFlow(c) && (c.spec_is_conditional() || c.spec_is_loop()));
                        let e = cpg.edges_view()[k];
                        let c = e.kind->ControlFlow_0;
                        lemma_select_member(cpg.edges_view(), sel_cfg_pred(u), (e.source, c));
                        assert(sel_cfg_pred(u)(e) == Some((e.source, c)));
                        let q = choose|q: int| 0 <= q < preds@.len() && preds@[q] == (e.source, c);
                    }
                }
            }
            if target {
                mark.set(u.0 as usize, true);
            }
            let ghost mid = mark@;
            let node_branches = match cpg.node(u) {
                Some(node) => match node.kind {
                    CpgNodeKind::If | CpgNodeKind::While | CpgNodeKind::For | CpgNodeKind::Loop | CpgNodeKind::Match
                    | CpgNodeKind::Return | CpgNodeKind::Break | CpgNodeKind::Continue => true,
                    _ => false,
                },
                None => false,
            };
            if node_branches {
                let succs = cpg.cfg_successors(u);
                let mut s: usize = 0;
                while s < succs.len()
                    invariant
                        cpg.wf(),
                        n == cpg.nodes_view().len(),
                        mark@.len() == n,
                        succs@ == select(cpg.edges_view(), sel_cfg_succ(u)),
                        s <= succs@.len(),
                        forall|x: int| 0 <= x < n ==> (#[trigger] mark@[x] <==> (mid[x]
                            || exists|q: int| 0 <= q < s && #[trigger] succs@[q].0.0 as int == x)),
                    decreases succs@.len() - s,
                {
                    let (t, _) = succs[s];
                    proof {
                        assert(succs@.contains(succs@[s as int]));
                        lemma_select_member(cpg.edges_view(), sel_cfg_succ(u), succs@[s as int]);
                        let k = choose|k: int| 0 <= k < cpg.edges_view().len() && sel_cfg_succ(u)(cpg.edges_view()[k]) == Some(succs@[s as int]);
                        assert(cpg.valid(cpg.edges_view()[k].target));
                    }
                    mark.set(t.0 as usize, true);
                    proof {
                        assert forall|x: int| 0 <= x < n implies (#[trigger] mark@[x] <==> (mid[x]
                            || exists|q: int| 0 <= q < s + 1 && #[trigger] succs@[q].0.0 as int == x)) by {
                            if x == t.0 as int {
                                assert(succs@[s as int].0.0 as int == x);
                            }
                        }
                    }
                    s = s + 1;
                }
            }
            proof {
                assert(cpg.valid(u));
                assert(node_branches == branches(cpg.at(u).kind));
                assert forall|x: int| 0 <= x < n implies (#[trigger] mark@[x] <==> (x == function.0 as int
                    || exists|t: int| 0 <= t < j + 1 && #[trigger] marks_leader(*cpg, below[t], x))) by {
                    if mark@[x] && !before[x] {
                        if mid[x] {
                            assert(x == u.0 as int && target);
                            assert(below[j as int] == u);
                            assert(branch_target(*cpg, u));
                            assert(marks_leader(*cpg, below[j as int], x));
                        } else {
                            assert(node_branches);
                            let succs = select(cpg.edges_view(), sel_cfg_succ(u));
                            let q = choose|q: int| 0 <= q < succs.len() && #[trigger] succs[q].0.0 as int == x;
                            assert(succs.contains(succs[q]));
                            lemma_select_member(cpg.edges_view(), sel_cfg_succ(u), succs[q]);
                            let k = choose|k: int| 0 <= k < cpg.edges_view().len() && sel_cfg_succ(u)(cpg.edges_view()[k]) == Some(succs[q]);
                            assert(cpg.edges_view()[k].target.0 as int == x);
                            assert(cf_edge_to(*cpg, k, u, x));
                            assert(marks_leader(*cpg, below[j as int], x));
                        }
                    }
                    if exists|t: int| 0 <= t < j + 1 && #[trigger] marks_leader(*cpg, below[t], x) {
                        let t = choose|t: int| 0 <= t < j + 1 && #[trigger] marks_leader(*cpg, below[t], x);
                        if t < j {
                            assert(before[x]);
                        } else if below[t].0 as int == x && branch_target(*cpg, below[t]) {
                            assert(mid[x]);
                        } else {
                            let k = choose|k: int| #[trigger] cf_edge_to(*cpg, k, below[t], x);
                            let e = cpg.edges_view()[k];
                            let c = e.kind->ControlFlow_0;
                            let succs = select(cpg.edges_view(), sel_cfg_succ(u));
                            assert(sel_cfg_succ(u)(e) == Some((e.target, c)));
                            lemma_select_member(cpg.edges_view(), sel_cfg_succ(u), (e.target, c));
                            let q = choose|q: int| 0 <= q < succs.len() && succs[q] == (e.target, c);
                            assert(succs[q].0.0 as int == x);
                        }
                    }
                }
            }
            j = j + 1;
        }
        proof {
            assert forall|x: int| 0 <= x < n implies (#[trigger] mark@[x] <==> is_leader(*cpg, function, NodeId(x as u32))) by {
                let v = NodeId(x as u32);
                assert(v.0 as int == x);
                if exists|t: int| 0 <= t < below.len() && #[trigger] marks_leader(*cpg, below[t], x) {
                    let t = choose|t: int| 0 <= t < below.len() && #[trigger] marks_leader(*cpg, below[t], x);
                    if below[t].0 as int == x && branch_target(*cpg, below[t]) {
                        assert(below[t] == v);
                        assert(below.contains(v));
                    } else {
                        let k = choose|k: int| #[trigger] cf_edge_to(*cpg, k, below[t], x);
                        assert(cpg.valid(cpg.edges_view()[k].target));
                        assert(cpg.edges_view()[k].target == v);
                        assert(below.contains(below[t]));
                        assert(follows_branch(*cpg, function, v));
                    }
                }
                if below.contains(v) && branch_target(*cpg, v) {
                    let t = choose|t: int| 0 <= t < below.len() && below[t] == v;
                    assert(marks_leader(*cpg, below[t], x));
                }
                if follows_branch(*cpg, function, v) {
                    let k = choose|k: int| 0 <= k < cpg.edges_view().len() && #[trigger] cpg.edges_view()[k].target == v
                        && cpg.edges_view()[k].kind is ControlFlow
                        && below.contains(cpg.edges_view()[k].source)
                        && branches(cpg.at(cpg.edges_view()[k].source).kind);
                    let t = choose|t: int| 0 <= t < below.len() && below[t] == cpg.edges_view()[k].source;
                    assert(cpg.edges_view()[k].target.0 as int == x);
                    assert(cf_edge_to(*cpg, k, below[t], x));
                    assert(marks_leader(*cpg, below[t], x));
                }
                if x == function.0 as int {
                    assert(v == function);
                }
            }
        }
        mark
    }

    /// The block led by `leader` ([`block_of`]), given the leader marks.
    fn grow_block(&self, cpg: &CodePropertyGraph, function: NodeId, leader: NodeId, leaders: &Vec<bool>) -> (r: Vec<NodeId>)
        requires
            cpg.wf(),
            leaders@.len() == cpg.nodes_view().len() || !cpg.valid(leader),
            cpg.valid(function) ==> leaders@.len() == cpg.nodes_view().len(),
            forall|x: int| 0 <= x < leaders@.len() ==> (#[trigger] leaders@[x] <==> is_leader(*cpg, function, NodeId(x as u32))),
        ensures
            r@ == block_of(*cpg, function, leader),
    {
        let mut block: Vec<NodeId> = vec![leader];
        let mut current = leader;
        let mut fuel: usize = cpg.node_count();
        let ghost whole = block_of(*cpg, function, leader);
        assert(block@ =~= seq![leader]);
        loop
            invariant
                cpg.wf(),
                leaders@.len() == cpg.nodes_view().len() || (!cpg.valid(current) && block@ == seq![leader]),
                forall|x: int| 0 <= x < leaders@.len() ==> (#[trigger] leaders@[x] <==> is_leader(*cpg, function, NodeId(x as u32))),
                fuel <= cpg.nodes_view().len(),
                whole == block_of(*cpg, function, leader),
                whole == block@ + block_rest(*cpg, function, current, fuel as nat),
            decreases fuel,
        {
            if fuel == 0 {
                assert(block@ + block_rest(*cpg, function, current, 0) =~= block@);
                return block;
            }
            let successors = cpg.cfg_successors(current);
            if successors.len() == 1 {
                let (succ, kind) = successors[0];
                proof {
                    assert(successors@.contains(successors@[0]));
                    lemma_select_member(cpg.edges_view(), sel_cfg_succ(current), successors@[0]);
                    let k = choose|k: int| 0 <= k < cpg.edges_view().len() && sel_cfg_succ(current)(cpg.edges_view()[k]) == Some(successors@[0]);
                    assert(cpg.valid(cpg.edges_view()[k].target));
                    assert(cpg.valid(cpg.edges_view()[k].source));
                    assert(NodeId(succ.0 as int as u32) == succ);
                }
                if kind == CfgEdgeKind::Sequential && !leaders[succ.0 as usize] {
                    proof {
                        assert(block@.push(succ) + block_rest(*cpg, function, succ, (fuel - 1) as nat)
                            =~= block@ + block_rest(*cpg, function, current, fuel as nat));
                    }
                    block.push(succ);
                    current = succ;
                    fuel = fuel - 1;
                    continue;
                }
            }
            assert(block@ + block_rest(*cpg, function, current, fuel as nat) =~= block@);
            return block;
        }
    }
}

} // verus!
