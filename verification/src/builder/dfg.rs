//! Data-flow edges: definitions reaching uses (an execution-ordered sweep over
//! the syntax tree), arguments to parameters, returned values to call sites,
//! and reads of fields and indexed elements; and def-use chains read back
//! from the graph.

use vstd::prelude::*;
use crate::graph::{
    appended_fresh, callers_of, function_ids, lemma_appended_fresh_trans,
    CodePropertyGraph, CpgEdge, CpgEdgeKind, CpgNodeKind, DfgEdgeKind, NodeId, select, sel_ast_child,
    lemma_select_member,
};
use crate::overlay::below_ids;
use crate::text::str_eq;
use super::cfg_rules::ast_of;
use super::dfg_rules::{
    arg_edges, assigned_name, binder_in, binder_of, caller_edges, declared_name, def_use_pairs, dfg_extracted, dfg_fan,
    env_bind, env_find, env_lookup, function_dfg, functions_dfg, index_edges, lemma_of_kind, lemma_syntax_kept,
    lemma_uses_in, lemma_with_edges_compose, member_edges, of_kind, others, pair_edges, param_edges, param_use_edges,
    params_in, return_edges, start_sweep, subtrees, sweep_kids, sweep_node, sweep_passes, uses_in, with_edges, Sweep,
};

verus! {

/// Options of data-flow extraction.
#[derive(Clone, Copy, Debug, PartialEq, Eq, Structural)]
pub struct DfgExtractorConfig {
    /// Add field and index read edges.
    pub include_field_access: bool,
    /// Add argument-to-parameter edges.
    pub include_parameters: bool,
    /// Add returned-value-to-call-site edges.
    pub include_return_values: bool,
    /// Track aliasing.
    pub track_aliases: bool,
    /// Iteration bound of fixpoint computations.
    pub max_iterations: usize,
}

/// Field, parameter and return edges on, aliasing off, 100 iterations.
pub open spec fn default_dfg_config() -> DfgExtractorConfig {
    DfgExtractorConfig {
        include_field_access: true,
        include_parameters: true,
        include_return_values: true,
        track_aliases: false,
        max_iterations: 100,
    }
}

impl Default for DfgExtractorConfig {
    fn default() -> (r: Self)
        ensures
            r == default_dfg_config(),
    {
        DfgExtractorConfig {
            include_field_access: true,
            include_parameters: true,
            include_return_values: true,
            track_aliases: false,
            max_iterations: 100,
        }
    }
}

/// The syntax-tree children of `n`.
pub open spec fn children(g: &CodePropertyGraph, n: NodeId) -> Seq<NodeId> {
    select(g.edges_view(), sel_ast_child(n))
}

/// The name an identifier kind refers to.
pub open spec fn ident_name(k: CpgNodeKind) -> Option<Seq<char>> {
    match k {
        CpgNodeKind::Identifier { name, .. } => Some(name@),
        _ => None,
    }
}

/// Node `d` defines the name `x`: a declaration or parameter named
/// `x`, or an assignment whose first child is the identifier `x`.
pub open spec fn defines(g: &CodePropertyGraph, d: NodeId, x: Seq<char>) -> bool {
    &&& g.valid(d)
    &&& match g.at(d).kind {
        CpgNodeKind::Variable { name, .. } => name@ == x,
        CpgNodeKind::Parameter { name, .. } => name@ == x,
        CpgNodeKind::Assignment { .. } =>
            children(g, d).len() > 0 && g.valid(children(g, d)[0]) && ident_name(g.at(children(g, d)[0]).kind) == Some(x),
        _ => false,
    }
}

/// Node `u` is an identifier use of a name that node `d` defines.
pub open spec fn def_reaches_use(g: &CodePropertyGraph, d: NodeId, u: NodeId) -> bool {
    &&& g.valid(u)
    &&& ident_name(g.at(u).kind) is Some
    &&& defines(g, d, ident_name(g.at(u).kind)->0)
}

/// A def-use edge joins a definition to a use of the name it defines.
pub open spec fn sound_edge(g: &CodePropertyGraph, e: CpgEdge) -> bool {
    e.kind == CpgEdgeKind::DataFlow(DfgEdgeKind::DefUse) ==> def_reaches_use(g, e.source, e.target)
}

/// `new` is `old` with data-flow edges appended, every added def-use edge
/// sound, and nothing else changed.
pub open spec fn dfg_grown(new: &CodePropertyGraph, old: &CodePropertyGraph) -> bool {
    &&& new.wf()
    &&& new.nodes_view() == old.nodes_view()
    &&& new.edges_view().len() >= old.edges_view().len()
    &&& new.edges_view().subrange(0, old.edges_view().len() as int) == old.edges_view()
    &&& forall|j: int| old.edges_view().len() <= j < new.edges_view().len() ==> {
        &&& (#[trigger] new.edges_view()[j]).kind.spec_is_dfg()
        &&& sound_edge(old, new.edges_view()[j])
    }
    &&& appended_fresh(new.edges_view(), old.edges_view().len() as int)
    &&& new.entries_view() == old.entries_view()
    &&& new.exits_view() == old.exits_view()
    &&& new.language_view() == old.language_view()
    &&& new.source_code_view() == old.source_code_view()
    &&& new.source_path_view() == old.source_path_view()
}

/// Adding edges that are not syntax-tree edges leaves every node's syntax children as they were.
pub proof fn lemma_children_kept(old: &CodePropertyGraph, new: &CodePropertyGraph, n: NodeId)
    requires
        new.edges_view().len() >= old.edges_view().len(),
        new.edges_view().subrange(0, old.edges_view().len() as int) == old.edges_view(),
        forall|j: int| old.edges_view().len() <= j < new.edges_view().len() ==> (#[trigger] new.edges_view()[j]).kind != CpgEdgeKind::AstChild,
    ensures
        children(new, n) == children(old, n),
{
    lemma_select_prefix(new.edges_view(), old.edges_view(), n);
}

/// Extending an edge sequence with non-syntax edges keeps the selected syntax children.
proof fn lemma_select_prefix(s: Seq<CpgEdge>, p: Seq<CpgEdge>, n: NodeId)
    requires
        s.len() >= p.len(),
        s.subrange(0, p.len() as int) == p,
        forall|j: int| p.len() <= j < s.len() ==> (#[trigger] s[j]).kind != CpgEdgeKind::AstChild,
    ensures
        select(s, sel_ast_child(n)) == select(p, sel_ast_child(n)),
    decreases s.len() - p.len(),
{
    if s.len() == p.len() {
        assert(s =~= p);
    } else {
        assert(s.drop_last().subrange(0, p.len() as int) =~= p);
        lemma_select_prefix(s.drop_last(), p, n);
    }
}


/// Growth by data-flow edges keeps every node's syntax children.
pub proof fn lemma_dfg_children(old: &CodePropertyGraph, new: &CodePropertyGraph, n: NodeId)
    requires
        dfg_grown(new, old),
    ensures
        children(new, n) == children(old, n),
{
    assert forall|j: int| old.edges_view().len() <= j < new.edges_view().len() implies (#[trigger] new.edges_view()[j]).kind != CpgEdgeKind::AstChild by {
        assert(new.edges_view()[j].kind.spec_is_dfg());
    }
    lemma_children_kept(old, new, n);
}

/// A graph has grown from itself.
pub proof fn lemma_dfg_grown_refl(g: &CodePropertyGraph)
    requires
        g.wf(),
    ensures
        dfg_grown(g, g),
{
    assert(g.edges_view().subrange(0, g.edges_view().len() as int) =~= g.edges_view());
}

/// Growth composes.
pub proof fn lemma_dfg_grown_trans(a: &CodePropertyGraph, b: &CodePropertyGraph, c: &CodePropertyGraph)
    requires
        dfg_grown(b, a),
        dfg_grown(c, b),
    ensures
        dfg_grown(c, a),
{
    assert(c.edges_view().subrange(0, a.edges_view().len() as int)
        =~= c.edges_view().subrange(0, b.edges_view().len() as int).subrange(0, a.edges_view().len() as int));
    assert forall|j: int| a.edges_view().len() <= j < c.edges_view().len() implies {
        &&& (#[trigger] c.edges_view()[j]).kind.spec_is_dfg()
        &&& sound_edge(a, c.edges_view()[j])
    } by {
        if j < b.edges_view().len() {
            assert(c.edges_view()[j] == c.edges_view().subrange(0, b.edges_view().len() as int)[j]);
        } else {
            let e = c.edges_view()[j];
            if e.kind == CpgEdgeKind::DataFlow(DfgEdgeKind::DefUse) {
                lemma_dfg_children(a, b, e.source);
            }
        }
    }
    lemma_appended_fresh_trans(a.edges_view().len() as int, b.edges_view(), c.edges_view());
}

/// Adds the data-flow edge `a -> b` labelled `k` unless present; a def-use
/// edge must join a definition to a use of its name.
fn flow_link(cpg: &mut CodePropertyGraph, a: NodeId, b: NodeId, k: DfgEdgeKind)
    requires
        old(cpg).wf(),
        k == DfgEdgeKind::DefUse ==> def_reaches_use(old(cpg), a, b),
    ensures
        dfg_grown(final(cpg), old(cpg)),
        old(cpg).valid(a) && old(cpg).valid(b) ==> final(cpg).has(CpgEdge { source: a, target: b, kind: CpgEdgeKind::DataFlow(k) }),
        final(cpg).edges_view() == if old(cpg).valid(a) && old(cpg).valid(b)
            && !old(cpg).has(CpgEdge { source: a, target: b, kind: CpgEdgeKind::DataFlow(k) }) {
            old(cpg).edges_view().push(CpgEdge { source: a, target: b, kind: CpgEdgeKind::DataFlow(k) })
        } else {
            old(cpg).edges_view()
        },
{
    let ghost before = *cpg;
    let added = cpg.connect_unique(a, b, CpgEdgeKind::DataFlow(k));
    proof {
        assert(cpg.edges_view().subrange(0, before.edges_view().len() as int) =~= before.edges_view());
        if added {
            assert forall|i: int, j: int| 0 <= i < j < cpg.edges_view().len() && before.edges_view().len() <= j implies
                #[trigger] cpg.edges_view()[i] != #[trigger] cpg.edges_view()[j] by {
                assert(cpg.edges_view()[i] == before.edges_view()[i]);
                if cpg.edges_view()[i] == cpg.edges_view()[j] {
                    assert(before.has(cpg.edges_view()[j]));
                }
            }
        }
    }
}

/// The syntax-tree children of `id`, all nodes of the graph.
fn kids_of(cpg: &CodePropertyGraph, id: NodeId) -> (r: Vec<NodeId>)
    requires
        cpg.wf(),
    ensures
        r@ == children(cpg, id),
        forall|k: int| 0 <= k < r@.len() ==> cpg.valid(#[trigger] r@[k]),
{
    let r = cpg.ast_children(id);
    proof {
        assert forall|k: int| 0 <= k < r@.len() implies cpg.valid(#[trigger] r@[k]) by {
            lemma_select_member(cpg.edges_view(), sel_ast_child(id), r@[k]);
            assert(r@.contains(r@[k]));
            let w = choose|w: int| 0 <= w < cpg.edges_view().len() && sel_ast_child(id)(cpg.edges_view()[w]) == Some(r@[k]);
            assert(cpg.valid(cpg.edges_view()[w].target));
        }
    }
    r
}

// ---------------------------------------------------------------------------
// The reaching-definitions sweep
// ---------------------------------------------------------------------------

/// Kinds whose children run only on some paths (branch and loop bodies).
pub open spec fn conditional_region(k: CpgNodeKind) -> bool {
    k is If || k is Else || k is While || k is For || k is Loop || k is Match || k is MatchArm
        || k is Try || k is Catch || k is Finally
}

/// Whether the children of a node of this kind run only on some paths.
pub fn is_conditional_region(kind: &CpgNodeKind) -> (r: bool)
    ensures
        r == conditional_region(*kind),
{
    match kind {
        CpgNodeKind::If | CpgNodeKind::Else | CpgNodeKind::While | CpgNodeKind::For | CpgNodeKind::Loop
        | CpgNodeKind::Match | CpgNodeKind::MatchArm | CpgNodeKind::Try | CpgNodeKind::Catch
        | CpgNodeKind::Finally => true,
        _ => false,
    }
}

/// Whether a node of this kind is a loop, whose body the sweep visits twice.
pub fn is_loop_region(kind: &CpgNodeKind) -> (r: bool)
    ensures
        r == (kind is While || kind is For || kind is Loop),
{
    match kind {
        CpgNodeKind::While | CpgNodeKind::For | CpgNodeKind::Loop => true,
        _ => false,
    }
}

/// The definitions currently reaching, by name.
pub struct ReachingEnv {
    entries: Vec<(String, Vec<NodeId>)>,
}

impl ReachingEnv {
    /// The definitions reaching, by name, as values.
    pub closed spec fn env_view(&self) -> Seq<(Seq<char>, Seq<NodeId>)> {
        self.entries@.map_values(|p: (String, Vec<NodeId>)| (p.0@, p.1@))
    }

    /// Every definition recorded under a name defines that name.
    pub closed spec fn sound(&self, g: &CodePropertyGraph) -> bool {
        forall|i: int, j: int| 0 <= i < self.entries@.len() && 0 <= j < self.entries@[i].1@.len()
            ==> defines(g, #[trigger] self.entries@[i].1@[j], self.entries@[i].0@)
    }

    /// No definitions yet.
    pub fn new() -> (r: ReachingEnv)
        ensures
            forall|g: &CodePropertyGraph| r.sound(g),
            r.env_view() == Seq::<(Seq<char>, Seq<NodeId>)>::empty(),
    {
        let r = ReachingEnv { entries: Vec::new() };
        proof { assert(r.env_view() =~= Seq::<(Seq<char>, Seq<NodeId>)>::empty()); }
        r
    }

    /// Where `name` is recorded: its first position.
    fn position(&self, name: &str) -> (r: Option<usize>)
        ensures
            r matches Some(i) ==> i < self.entries@.len() && self.entries@[i as int].0@ == name@
                && env_find(self.env_view(), name@, 0) == Some(i as int),
            r is None ==> env_find(self.env_view(), name@, 0) is None,
    {
        let mut i: usize = 0;
        while i < self.entries.len()
            invariant
                i <= self.entries@.len(),
                env_find(self.env_view(), name@, 0) == env_find(self.env_view(), name@, i as int),
            decreases self.entries@.len() - i,
        {
            if str_eq(self.entries[i].0.as_str(), name) {
                return Some(i);
            }
            i = i + 1;
        }
        None
    }

    /// Records `def` as reaching for `name`: replacing the earlier ones in
    /// straight-line code, added beside them (once) in conditional code. An
    /// empty name records nothing.
    pub fn bind(&mut self, g: &CodePropertyGraph, name: &str, def: NodeId, conditional: bool)
        requires
            old(self).sound(g),
            name@.len() > 0 ==> defines(g, def, name@),
        ensures
            final(self).sound(g),
            final(self).env_view() == env_bind(old(self).env_view(), name@, def, conditional),
    {
        if name.is_empty() {
            return;
        }
        match self.position(name) {
            Some(i) => {
                let mut entry: (String, Vec<NodeId>) = (String::new(), Vec::new());
                self.entries.set_and_swap(i, &mut entry);
                let ghost prev = entry.1@;
                if conditional {
                    if !crate::graph::contains_id(&entry.1, def) {
                        entry.1.push(def);
                    }
                } else {
                    entry.1 = vec![def];
                }
                let ghost placed = entry;
                self.entries.set_and_swap(i, &mut entry);
                proof {
                    assert(placed.0@ == name@);
                    assert(old(self).env_view()[i as int].1 == prev);
                    assert(placed.1@ =~= (if conditional { if prev.contains(def) { prev } else { prev.push(def) } } else { seq![def] }));
                    assert(self.entries@ =~= old(self).entries@.update(i as int, placed));
                    assert(self.env_view() =~= old(self).env_view().update(i as int, (name@, placed.1@)));
                    assert(self.env_view() =~= env_bind(old(self).env_view(), name@, def, conditional));
                    assert forall|a: int, b: int| 0 <= a < self.entries@.len() && 0 <= b < self.entries@[a].1@.len()
                        implies defines(g, #[trigger] self.entries@[a].1@[b], self.entries@[a].0@) by {
                        if a == i {
                            if b < prev.len() && (conditional) {
                                assert(old(self).entries@[a].1@[b] == prev[b]);
                            }
                        } else {
                            assert(self.entries@[a] == old(self).entries@[a]);
                        }
                    }
                }
            }
            None => {
                let owned = name.to_owned();
                let single = vec![def];
                proof { assert(single@ =~= seq![def]); }
                self.entries.push((owned, single));
                proof {
                    assert(self.env_view() =~= old(self).env_view().push((name@, seq![def])));
                    assert(self.env_view() =~= env_bind(old(self).env_view(), name@, def, conditional));
                    assert forall|a: int, b: int| 0 <= a < self.entries@.len() && 0 <= b < self.entries@[a].1@.len()
                        implies defines(g, #[trigger] self.entries@[a].1@[b], self.entries@[a].0@) by {
                        if a < old(self).entries@.len() {
                            assert(self.entries@[a] == old(self).entries@[a]);
                        }
                    }
                }
            }
        }
    }

    /// The definitions reaching for `name`.
    pub fn lookup(&self, g: &CodePropertyGraph, name: &str) -> (r: Vec<NodeId>)
        requires
            self.sound(g),
        ensures
            forall|j: int| 0 <= j < r@.len() ==> defines(g, #[trigger] r@[j], name@),
            r@ == env_lookup(self.env_view(), name@),
    {
        match self.position(name) {
            Some(i) => {
                let r = crate::graph::copy_ids(&self.entries[i].1);
                proof {
                    assert forall|j: int| 0 <= j < r@.len() implies defines(g, #[trigger] r@[j], name@) by {
                        assert(r@[j] == self.entries@[i as int].1@[j]);
                    }
                }
                r
            }
            None => Vec::new(),
        }
    }
}

/// Every pair joins a definition to a use of the name it defines.
pub open spec fn pairs_sound(g: &CodePropertyGraph, pairs: Seq<(NodeId, NodeId)>) -> bool {
    forall|k: int| 0 <= k < pairs.len() ==> def_reaches_use(g, (#[trigger] pairs[k]).0, pairs[k].1)
}

/// The sweep's state as values.
pub open spec fn sweep_state(env: &ReachingEnv, pairs: Seq<(NodeId, NodeId)>, on_path: Seq<bool>) -> Sweep {
    Sweep { env: env.env_view(), pairs, on_path }
}

/// The child of a declaring node that is the declared name itself: its first
/// identifier child spelled `name` (none for an empty name).
pub fn binder_identifier(cpg: &CodePropertyGraph, node: NodeId, name: &str) -> (r: Option<NodeId>)
    requires
        cpg.wf(),
    ensures
        r matches Some(c) ==> children(cpg, node).contains(c) && ident_name(cpg.at(c).kind) == Some(name@),
        r == binder_of(ast_of(cpg), node, name@),
{
    if name.is_empty() {
        return None;
    }
    let kids = kids_of(cpg, node);
    let mut i: usize = 0;
    while i < kids.len()
        invariant
            cpg.wf(),
            kids@ == children(cpg, node),
            kids@ == (ast_of(cpg).children)(node),
            name@.len() > 0,
            forall|k: int| 0 <= k < kids@.len() ==> cpg.valid(#[trigger] kids@[k]),
            binder_of(ast_of(cpg), node, name@) == binder_in(ast_of(cpg), kids@, name@, i as int),
            i <= kids@.len(),
        decreases kids@.len() - i,
    {
        let c = kids[i];
        if let Some(n) = cpg.node(c) {
            if let CpgNodeKind::Identifier { name: x, .. } = &n.kind {
                if str_eq(x.as_str(), name) {
                    assert(kids@[i as int] == c);
                    return Some(c);
                }
            }
        }
        i = i + 1;
    }
    None
}

/// The name an identifier node refers to.
pub fn identifier_name(cpg: &CodePropertyGraph, node: NodeId) -> (r: Option<String>)
    ensures
        r matches Some(s) ==> cpg.valid(node) && ident_name(cpg.at(node).kind) == Some(s@),
        r is None ==> !cpg.valid(node) || ident_name(cpg.at(node).kind) is None,
{
    match cpg.node(node) {
        Some(n) => match &n.kind {
            CpgNodeKind::Identifier { name, .. } => Some(name.clone()),
            _ => None,
        },
        None => None,
    }
}

/// The execution-ordered reaching-definitions sweep below `node`, exactly as
/// [`sweep_node`] states it: a declaration, parameter or plain assignment to
/// an identifier binds its name after its other children are swept (the
/// declared identifier itself, and the written identifier of a plain `=`, are
/// not uses); an identifier use is paired with every definition reaching it;
/// other nodes sweep their children in order, conditionally inside branch and
/// loop bodies, twice for loops. A node already on the current descent is not
/// entered again. Every pair found joins a definition to a use of its name.
#[verifier::rlimit(40)]
pub fn visit_reaching(cpg: &CodePropertyGraph, node: NodeId, env: &mut ReachingEnv, conditional: bool,
    pairs: &mut Vec<(NodeId, NodeId)>, on_path: &mut Vec<bool>, fuel: usize)
    requires
        cpg.wf(),
        old(env).sound(cpg),
        pairs_sound(cpg, old(pairs)@),
        old(on_path)@.len() == cpg.nodes_view().len(),
    ensures
        final(env).sound(cpg),
        pairs_sound(cpg, final(pairs)@),
        final(on_path)@ == old(on_path)@,
        sweep_state(final(env), final(pairs)@, final(on_path)@)
            =~~= sweep_node(ast_of(cpg), node, sweep_state(old(env), old(pairs)@, old(on_path)@), conditional, fuel as nat),
    decreases fuel,
{
    let ghost a = ast_of(cpg);
    if cpg.node(node).is_none() {
        return;
    }
    let i = node.0 as usize;
    if on_path[i] || fuel == 0 {
        return;
    }
    on_path.set(i, true);
    let ghost marked = on_path@;
    let ghost s1 = sweep_state(env, pairs@, on_path@);
    let sub = fuel - 1;
    match cpg.node(node) {
        Some(n) => match &n.kind {
            CpgNodeKind::Variable { name, .. } | CpgNodeKind::Parameter { name, .. } => {
                let binder = binder_identifier(cpg, node, name.as_str());
                let kids = kids_of(cpg, node);
                let mut k: usize = 0;
                while k < kids.len()
                    invariant
                        cpg.wf(),
                        env.sound(cpg),
                        pairs_sound(cpg, pairs@),
                        on_path@ == marked,
                        marked.len() == cpg.nodes_view().len(),
                        sub < fuel,
                        k <= kids@.len(),
                        a == ast_of(cpg),
                        kids@ == (a.children)(node),
                        sweep_kids(a, kids@, 0, binder, false, s1, conditional, sub as nat)
                            == sweep_kids(a, kids@, k as int, binder, false, sweep_state(env, pairs@, on_path@), conditional, sub as nat),
                    decreases kids@.len() - k,
                {
                    if binder != Some(kids[k]) {
                        visit_reaching(cpg, kids[k], env, conditional, pairs, on_path, sub);
                    }
                    k = k + 1;
                }
                env.bind(cpg, name.as_str(), node, conditional);
            }
            CpgNodeKind::Assignment { operator } => {
                let compound = !str_eq(operator.as_str(), "=");
                let kids = kids_of(cpg, node);
                let target = if kids.len() > 0 { Some(kids[0]) } else { None };
                let target_name = match target {
                    Some(t) => identifier_name(cpg, t),
                    None => None,
                };
                let target_is_ident = target_name.is_some();
                proof {
                    assert(target_name matches Some(x) ==> assigned_name(a, node) == Some(x@));
                    assert(target_name is None ==> assigned_name(a, node) is None);
                }
                let mut k: usize = 0;
                while k < kids.len()
                    invariant
                        cpg.wf(),
                        env.sound(cpg),
                        pairs_sound(cpg, pairs@),
                        on_path@ == marked,
                        marked.len() == cpg.nodes_view().len(),
                        sub < fuel,
                        k <= kids@.len(),
                        a == ast_of(cpg),
                        kids@ == (a.children)(node),
                        target_is_ident == (assigned_name(a, node) is Some),
                        compound == !(operator@ == "="@),
                        sweep_kids(a, kids@, 0, None, assigned_name(a, node) is Some && operator@ == "="@, s1, conditional, sub as nat)
                            == sweep_kids(a, kids@, k as int, None, assigned_name(a, node) is Some && operator@ == "="@,
                                sweep_state(env, pairs@, on_path@), conditional, sub as nat),
                    decreases kids@.len() - k,
                {
                    if !(k == 0 && target_is_ident && !compound) {
                        visit_reaching(cpg, kids[k], env, conditional, pairs, on_path, sub);
                    }
                    k = k + 1;
                }
                if let Some(x) = target_name {
                    env.bind(cpg, x.as_str(), node, conditional);
                }
            }
            CpgNodeKind::Identifier { name, .. } => {
                let defs = env.lookup(cpg, name.as_str());
                let ghost p0 = pairs@;
                let mut k: usize = 0;
                proof { assert(p0 + defs@.take(0).map_values(|d: NodeId| (d, node)) =~= p0); }
                while k < defs.len()
                    invariant
                        cpg.wf(),
                        cpg.valid(node),
                        ident_name(cpg.at(node).kind) == Some(name@),
                        forall|j: int| 0 <= j < defs@.len() ==> defines(cpg, #[trigger] defs@[j], name@),
                        pairs_sound(cpg, pairs@),
                        k <= defs@.len(),
                        pairs@ == p0 + defs@.take(k as int).map_values(|d: NodeId| (d, node)),
                    decreases defs@.len() - k,
                {
                    let ghost before = pairs@;
                    pairs.push((defs[k], node));
                    proof {
                        assert forall|q: int| 0 <= q < pairs@.len() implies def_reaches_use(cpg, (#[trigger] pairs@[q]).0, pairs@[q].1) by {
                            if q < before.len() {
                                assert(pairs@[q] == before[q]);
                            }
                        }
                        assert(defs@.take(k + 1) =~= defs@.take(k as int).push(defs@[k as int]));
                        assert(pairs@ =~= p0 + defs@.take(k + 1).map_values(|d: NodeId| (d, node)));
                    }
                    k = k + 1;
                }
                proof { assert(defs@.take(k as int) =~= defs@); }
            }
            other => {
                let child_conditional = conditional || is_conditional_region(other);
                let passes: usize = if is_loop_region(other) { 2 } else { 1 };
                let kids = kids_of(cpg, node);
                let mut p: usize = 0;
                while p < passes
                    invariant
                        cpg.wf(),
                        env.sound(cpg),
                        pairs_sound(cpg, pairs@),
                        on_path@ == marked,
                        marked.len() == cpg.nodes_view().len(),
                        sub < fuel,
                        p <= passes,
                        a == ast_of(cpg),
                        kids@ == (a.children)(node),
                        sweep_passes(a, kids@, 0, passes as int, s1, child_conditional, sub as nat)
                            == sweep_passes(a, kids@, p as int, passes as int, sweep_state(env, pairs@, on_path@), child_conditional, sub as nat),
                    decreases passes - p,
                {
                    let ghost s2 = sweep_state(env, pairs@, on_path@);
                    let mut k: usize = 0;
                    while k < kids.len()
                        invariant
                            cpg.wf(),
                            env.sound(cpg),
                            pairs_sound(cpg, pairs@),
                            on_path@ == marked,
                            marked.len() == cpg.nodes_view().len(),
                            sub < fuel,
                            k <= kids@.len(),
                            a == ast_of(cpg),
                            kids@ == (a.children)(node),
                            sweep_kids(a, kids@, 0, None, false, s2, child_conditional, sub as nat)
                                == sweep_kids(a, kids@, k as int, None, false, sweep_state(env, pairs@, on_path@), child_conditional, sub as nat),
                        decreases kids@.len() - k,
                    {
                        visit_reaching(cpg, kids[k], env, child_conditional, pairs, on_path, sub);
                        k = k + 1;
                    }
                    p = p + 1;
                }
            }
        },
        None => {}
    }
    on_path.set(i, false);
    proof { assert(on_path@ =~= old(on_path)@); }
}


// ---------------------------------------------------------------------------
// Definitions and uses of a function
// ---------------------------------------------------------------------------

/// The definitions, uses, and field and index reads below a function.
pub struct DefUseCollector {
    function: NodeId,
    definitions: Vec<(String, NodeId)>,
    uses: Vec<(String, Vec<NodeId>)>,
    field_accesses: Vec<NodeId>,
    index_accesses: Vec<NodeId>,
    assignments: Vec<NodeId>,
}

/// The node of the first entry named `x`.
spec fn first_def(s: Seq<(String, NodeId)>, x: Seq<char>) -> Option<NodeId>
    decreases s.len(),
{
    if s.len() == 0 {
        None
    } else if s[0].0@ == x {
        Some(s[0].1)
    } else {
        first_def(s.drop_first(), x)
    }
}

/// The nodes of the first entry named `x`, or none.
spec fn first_uses(s: Seq<(String, Vec<NodeId>)>, x: Seq<char>) -> Seq<NodeId>
    decreases s.len(),
{
    if s.len() == 0 {
        Seq::empty()
    } else if s[0].0@ == x {
        s[0].1@
    } else {
        first_uses(s.drop_first(), x)
    }
}

proof fn lemma_first_def_update(s: Seq<(String, NodeId)>, i: int, e: (String, NodeId), y: Seq<char>)
    requires
        0 <= i < s.len(),
        s[i].0@ == e.0@,
        forall|j: int| 0 <= j < i ==> s[j].0@ != e.0@,
    ensures
        first_def(s.update(i, e), y) == if y == e.0@ { Some(e.1) } else { first_def(s, y) },
    decreases i,
{
    let t = s.update(i, e);
    if i > 0 {
        lemma_first_def_update(s.drop_first(), i - 1, e, y);
        assert(t.drop_first() =~= s.drop_first().update(i - 1, e));
        assert(t[0] == s[0]);
        assert(s[0].0@ != e.0@);
    } else {
        assert(t.drop_first() =~= s.drop_first());
        assert(t[0] == e);
    }
}

proof fn lemma_first_def_push(s: Seq<(String, NodeId)>, e: (String, NodeId), y: Seq<char>)
    requires
        forall|j: int| 0 <= j < s.len() ==> s[j].0@ != e.0@,
    ensures
        first_def(s.push(e), y) == if y == e.0@ { Some(e.1) } else { first_def(s, y) },
    decreases s.len(),
{
    let t = s.push(e);
    if s.len() > 0 {
        lemma_first_def_push(s.drop_first(), e, y);
        assert(t.drop_first() =~= s.drop_first().push(e));
        assert(t[0] == s[0]);
    } else {
        assert(t.drop_first() =~= Seq::<(String, NodeId)>::empty());
        assert(t[0] == e);
        assert(first_def(t.drop_first(), y) is None);
    }
}

proof fn lemma_first_uses_update(s: Seq<(String, Vec<NodeId>)>, i: int, e: (String, Vec<NodeId>), y: Seq<char>)
    requires
        0 <= i < s.len(),
        s[i].0@ == e.0@,
        forall|j: int| 0 <= j < i ==> s[j].0@ != e.0@,
    ensures
        first_uses(s.update(i, e), y) == if y == e.0@ { e.1@ } else { first_uses(s, y) },
    decreases i,
{
    let t = s.update(i, e);
    if i > 0 {
        lemma_first_uses_update(s.drop_first(), i - 1, e, y);
        assert(t.drop_first() =~= s.drop_first().update(i - 1, e));
        assert(t[0] == s[0]);
        assert(s[0].0@ != e.0@);
    } else {
        assert(t.drop_first() =~= s.drop_first());
        assert(t[0] == e);
    }
}

proof fn lemma_first_uses_push(s: Seq<(String, Vec<NodeId>)>, e: (String, Vec<NodeId>), y: Seq<char>)
    requires
        forall|j: int| 0 <= j < s.len() ==> s[j].0@ != e.0@,
    ensures
        first_uses(s.push(e), y) == if y == e.0@ { e.1@ } else { first_uses(s, y) },
    decreases s.len(),
{
    let t = s.push(e);
    if s.len() > 0 {
        lemma_first_uses_push(s.drop_first(), e, y);
        assert(t.drop_first() =~= s.drop_first().push(e));
        assert(t[0] == s[0]);
    } else {
        assert(t.drop_first() =~= Seq::<(String, Vec<NodeId>)>::empty());
        assert(t[0] == e);
        assert(first_uses(t.drop_first(), y) =~= Seq::<NodeId>::empty());
    }
}

proof fn lemma_first_uses_member(s: Seq<(String, Vec<NodeId>)>, x: Seq<char>, k: int) -> (i: int)
    requires
        0 <= k < first_uses(s, x).len(),
    ensures
        0 <= i < s.len(),
        s[i].0@ == x,
        0 <= k < s[i].1@.len(),
        first_uses(s, x)[k] == s[i].1@[k],
    decreases s.len(),
{
    if s[0].0@ == x {
        0
    } else {
        let i = lemma_first_uses_member(s.drop_first(), x, k);
        i + 1
    }
}

/// `v` is the identifier an assignment writes: the first child of its
/// parent, an assignment.
pub open spec fn assignment_target(g: &CodePropertyGraph, v: NodeId) -> bool {
    &&& g.valid(v)
    &&& g.at(v).parent matches Some(p)
    &&& g.valid(p)
    &&& g.at(p).kind is Assignment
    &&& children(g, p).len() > 0
    &&& children(g, p)[0] == v
}

/// `v` is a use of `x`: an identifier of that name other than an
/// assignment's target.
pub open spec fn use_of_name(g: &CodePropertyGraph, v: NodeId, x: Seq<char>) -> bool {
    g.valid(v) && ident_name(g.at(v).kind) == Some(x) && !assignment_target(g, v)
}

/// The last node of `s` that defines `x` ([`defined_name`]).
pub open spec fn last_definition(g: &CodePropertyGraph, s: Seq<NodeId>, x: Seq<char>) -> Option<NodeId>
    decreases s.len(),
{
    if s.len() == 0 {
        None
    } else if defined_name(g, s.last()) == Some(x) {
        Some(s.last())
    } else {
        last_definition(g, s.drop_last(), x)
    }
}

/// The uses of `x` among `s`, in order.
pub open spec fn uses_among(g: &CodePropertyGraph, s: Seq<NodeId>, x: Seq<char>) -> Seq<NodeId> {
    s.filter(|v: NodeId| use_of_name(g, v, x))
}

/// The nodes of `s` whose kind satisfies `p`, in order.
pub open spec fn kinds_among(g: &CodePropertyGraph, s: Seq<NodeId>, p: spec_fn(CpgNodeKind) -> bool) -> Seq<NodeId> {
    s.filter(|v: NodeId| g.valid(v) && p(g.at(v).kind))
}

impl DefUseCollector {
    /// The function whose descendants are collected.
    pub closed spec fn function_view(&self) -> NodeId {
        self.function
    }

    /// The definition recorded for `x`, if any.
    pub closed spec fn definition_view(&self, x: Seq<char>) -> Option<NodeId> {
        first_def(self.definitions@, x)
    }

    /// The uses recorded for `x`, in the order found.
    pub closed spec fn uses_view(&self, x: Seq<char>) -> Seq<NodeId> {
        first_uses(self.uses@, x)
    }

    /// The member accesses recorded.
    pub closed spec fn fields_view(&self) -> Seq<NodeId> {
        self.field_accesses@
    }

    /// The index accesses recorded.
    pub closed spec fn indexes_view(&self) -> Seq<NodeId> {
        self.index_accesses@
    }

    /// The assignments recorded.
    pub closed spec fn assignments_view(&self) -> Seq<NodeId> {
        self.assignments@
    }

    /// Nothing has been recorded.
    pub closed spec fn recorded_nothing(&self) -> bool {
        &&& self.definitions@.len() == 0
        &&& self.uses@.len() == 0
        &&& self.field_accesses@.len() == 0
        &&& self.index_accesses@.len() == 0
        &&& self.assignments@.len() == 0
    }

    /// Recorded uses are identifiers of their name; recorded reads are nodes.
    spec fn ok(&self, g: &CodePropertyGraph) -> bool {
        &&& forall|i: int, j: int| 0 <= i < self.uses@.len() && 0 <= j < self.uses@[i].1@.len() ==>
            g.valid(#[trigger] self.uses@[i].1@[j]) && ident_name(g.at(self.uses@[i].1@[j]).kind) == Some(self.uses@[i].0@)
        &&& forall|k: int| 0 <= k < self.field_accesses@.len() ==> g.valid(#[trigger] self.field_accesses@[k])
        &&& forall|k: int| 0 <= k < self.index_accesses@.len() ==> g.valid(#[trigger] self.index_accesses@[k])
    }

    /// A collector for `function` that has recorded nothing.
    pub fn new(function: NodeId) -> (r: DefUseCollector)
        ensures
            r.function_view() == function,
            r.recorded_nothing(),
            forall|x: Seq<char>| r.definition_view(x) is None && r.uses_view(x).len() == 0,
            r.fields_view().len() == 0,
            r.indexes_view().len() == 0,
            r.assignments_view().len() == 0,
    {
        DefUseCollector {
            function,
            definitions: Vec::new(),
            uses: Vec::new(),
            field_accesses: Vec::new(),
            index_accesses: Vec::new(),
            assignments: Vec::new(),
        }
    }

    /// Records `node` as the definition of `name`, replacing an earlier one.
    fn set_definition(&mut self, name: &String, node: NodeId)
        ensures
            forall|x: Seq<char>| final(self).definition_view(x) == if x == name@ { Some(node) } else { old(self).definition_view(x) },
            final(self).uses@ == old(self).uses@,
            final(self).field_accesses@ == old(self).field_accesses@,
            final(self).index_accesses@ == old(self).index_accesses@,
            final(self).assignments@ == old(self).assignments@,
            final(self).function == old(self).function,
    {
        let mut i: usize = 0;
        while i < self.definitions.len()
            invariant
                self.definitions@ == old(self).definitions@,
                self.uses@ == old(self).uses@,
                self.field_accesses@ == old(self).field_accesses@,
                self.index_accesses@ == old(self).index_accesses@,
                self.assignments@ == old(self).assignments@,
                self.function == old(self).function,
                i <= self.definitions@.len(),
                forall|j: int| 0 <= j < i ==> self.definitions@[j].0@ != name@,
            decreases self.definitions@.len() - i,
        {
            if str_eq(self.definitions[i].0.as_str(), name.as_str()) {
                let e = (name.clone(), node);
                proof {
                    assert forall|x: Seq<char>| first_def(self.definitions@.update(i as int, e), x)
                        == if x == name@ { Some(node) } else { first_def(self.definitions@, x) } by {
                        lemma_first_def_update(self.definitions@, i as int, e, x);
                    }
                }
                self.definitions.set(i, e);
                return;
            }
            i = i + 1;
        }
        let e = (name.clone(), node);
        proof {
            assert forall|x: Seq<char>| first_def(self.definitions@.push(e), x)
                == if x == name@ { Some(node) } else { first_def(self.definitions@, x) } by {
                lemma_first_def_push(self.definitions@, e, x);
            }
        }
        self.definitions.push(e);
    }

    /// Records identifier `node` as a use of its name.
    fn add_use(&mut self, g: &CodePropertyGraph, name: &String, node: NodeId)
        requires
            g.valid(node),
            ident_name(g.at(node).kind) == Some(name@),
        ensures
            old(self).ok(g) ==> final(self).ok(g),
            forall|x: Seq<char>| final(self).uses_view(x) == if x == name@ { old(self).uses_view(x).push(node) } else { old(self).uses_view(x) },
            final(self).definitions@ == old(self).definitions@,
            final(self).field_accesses@ == old(self).field_accesses@,
            final(self).index_accesses@ == old(self).index_accesses@,
            final(self).assignments@ == old(self).assignments@,
            final(self).function == old(self).function,
    {
        let mut i: usize = 0;
        while i < self.uses.len()
            invariant
                *self == *old(self),
                self.uses@ == old(self).uses@,
                self.definitions@ == old(self).definitions@,
                self.field_accesses@ == old(self).field_accesses@,
                self.index_accesses@ == old(self).index_accesses@,
                self.assignments@ == old(self).assignments@,
                self.function == old(self).function,
                g.valid(node),
                ident_name(g.at(node).kind) == Some(name@),
                i <= self.uses@.len(),
                forall|j: int| 0 <= j < i ==> self.uses@[j].0@ != name@,
            decreases self.uses@.len() - i,
        {
            if str_eq(self.uses[i].0.as_str(), name.as_str()) {
                let ghost pre = *self;
                let mut v = self.uses[i].1.clone();
                v.push(node);
                let e = (name.clone(), v);
                proof {
                    assert forall|x: Seq<char>| first_uses(pre.uses@.update(i as int, e), x)
                        == if x == name@ { e.1@ } else { first_uses(pre.uses@, x) } by {
                        lemma_first_uses_update(pre.uses@, i as int, e, x);
                    }
                    lemma_first_uses_at(pre.uses@, i as int);
                }
                self.uses.set(i, e);
                proof {
                  if pre.ok(g) {
                    assert(pre.uses@[i as int].0@ == name@);
                    assert(self.uses@[i as int].0@ == name@);
                    assert(self.uses@[i as int].1@ == pre.uses@[i as int].1@.push(node));
                    assert forall|a: int, b: int| 0 <= a < self.uses@.len() && 0 <= b < self.uses@[a].1@.len() implies
                        g.valid(#[trigger] self.uses@[a].1@[b]) && ident_name(g.at(self.uses@[a].1@[b]).kind) == Some(self.uses@[a].0@) by {
                        if a == i {
                            if b < pre.uses@[a].1@.len() {
                                let w = pre.uses@[a].1@[b];
                                assert(self.uses@[a].1@[b] == w);
                                assert(g.valid(w) && ident_name(g.at(w).kind) == Some(pre.uses@[a].0@));
                            } else {
                                assert(b == pre.uses@[a].1@.len());
                                assert(self.uses@[a].1@[b] == node);
                            }
                        } else {
                            assert(self.uses@[a] == pre.uses@[a]);
                            let w = pre.uses@[a].1@[b];
                            assert(g.valid(w) && ident_name(g.at(w).kind) == Some(pre.uses@[a].0@));
                        }
                    }
                  }
                }
                return;
            }
            i = i + 1;
        }
        let e = (name.clone(), vec![node]);
        proof {
            assert forall|x: Seq<char>| first_uses(self.uses@.push(e), x)
                == if x == name@ { e.1@ } else { first_uses(self.uses@, x) } by {
                lemma_first_uses_push(self.uses@, e, x);
            }
            lemma_first_uses_absent(self.uses@, name@);
            assert(e.1@ =~= Seq::<NodeId>::empty().push(node));
        }
        self.uses.push(e);
        proof {
          if old(self).ok(g) {
            assert forall|a: int, b: int| 0 <= a < self.uses@.len() && 0 <= b < self.uses@[a].1@.len() implies
                g.valid(#[trigger] self.uses@[a].1@[b]) && ident_name(g.at(self.uses@[a].1@[b]).kind) == Some(self.uses@[a].0@) by {
                if a < old(self).uses@.len() {
                    assert(self.uses@[a] == old(self).uses@[a]);
                }
            }
          }
        }
    }

    /// The definition recorded for `name`, if any.
    pub fn definition(&self, name: &str) -> (r: Option<NodeId>)
        ensures
            r == self.definition_view(name@),
    {
        let mut i: usize = 0;
        assert(self.definitions@.subrange(0, self.definitions@.len() as int) =~= self.definitions@);
        while i < self.definitions.len()
            invariant
                i <= self.definitions@.len(),
                first_def(self.definitions@, name@) == first_def(self.definitions@.subrange(i as int, self.definitions@.len() as int), name@),
            decreases self.definitions@.len() - i,
        {
            let ghost rest = self.definitions@.subrange(i as int, self.definitions@.len() as int);
            assert(rest.drop_first() =~= self.definitions@.subrange(i as int + 1, self.definitions@.len() as int));
            if str_eq(self.definitions[i].0.as_str(), name) {
                return Some(self.definitions[i].1);
            }
            i = i + 1;
        }
        None
    }

    /// The uses recorded for `name`, in the order found.
    pub fn uses_of(&self, name: &str) -> (r: Vec<NodeId>)
        ensures
            r@ == self.uses_view(name@),
    {
        let mut i: usize = 0;
        assert(self.uses@.subrange(0, self.uses@.len() as int) =~= self.uses@);
        while i < self.uses.len()
            invariant
                i <= self.uses@.len(),
                first_uses(self.uses@, name@) == first_uses(self.uses@.subrange(i as int, self.uses@.len() as int), name@),
            decreases self.uses@.len() - i,
        {
            let ghost rest = self.uses@.subrange(i as int, self.uses@.len() as int);
            assert(rest.drop_first() =~= self.uses@.subrange(i as int + 1, self.uses@.len() as int));
            if str_eq(self.uses[i].0.as_str(), name) {
                return self.uses[i].1.clone();
            }
            i = i + 1;
        }
        Vec::new()
    }

    /// Walks the descendants of the function, in id order: declarations,
    /// parameters and assignments whose first child is an identifier define
    /// their name (the last definition of a name is kept); identifiers other
    /// than an assignment's target are uses of their name; member and index
    /// accesses and assignments are recorded in order.
    pub fn collect(&mut self, cpg: &CodePropertyGraph)
        requires
            cpg.wf(),
        ensures
            final(self).function_view() == old(self).function_view(),
            forall|x: Seq<char>| #[trigger] final(self).definition_view(x) ==
                match last_definition(cpg, below_ids(*cpg, old(self).function_view(), cpg.nodes_view().len() as int), x) {
                    Some(d) => Some(d),
                    None => old(self).definition_view(x),
                },
            forall|x: Seq<char>| #[trigger] final(self).uses_view(x) ==
                old(self).uses_view(x) + uses_among(cpg, below_ids(*cpg, old(self).function_view(), cpg.nodes_view().len() as int), x),
            final(self).fields_view() == old(self).fields_view()
                + kinds_among(cpg, below_ids(*cpg, old(self).function_view(), cpg.nodes_view().len() as int), |k: CpgNodeKind| k is MemberAccess),
            final(self).indexes_view() == old(self).indexes_view()
                + kinds_among(cpg, below_ids(*cpg, old(self).function_view(), cpg.nodes_view().len() as int), |k: CpgNodeKind| k is IndexAccess),
            final(self).assignments_view() == old(self).assignments_view()
                + kinds_among(cpg, below_ids(*cpg, old(self).function_view(), cpg.nodes_view().len() as int), |k: CpgNodeKind| k is Assignment),
    {
        self.collect_into(cpg);
    }

    /// [`Self::collect`], also keeping what the collector recorded valid in `cpg`.
    fn collect_into(&mut self, cpg: &CodePropertyGraph)
        requires
            cpg.wf(),
        ensures
            old(self).ok(cpg) ==> final(self).ok(cpg),
            final(self).function == old(self).function,
            forall|x: Seq<char>| #[trigger] final(self).definition_view(x) ==
                match last_definition(cpg, below_ids(*cpg, old(self).function, cpg.nodes_view().len() as int), x) {
                    Some(d) => Some(d),
                    None => old(self).definition_view(x),
                },
            forall|x: Seq<char>| #[trigger] final(self).uses_view(x) ==
                old(self).uses_view(x) + uses_among(cpg, below_ids(*cpg, old(self).function, cpg.nodes_view().len() as int), x),
            final(self).field_accesses@ == old(self).field_accesses@
                + kinds_among(cpg, below_ids(*cpg, old(self).function, cpg.nodes_view().len() as int), |k: CpgNodeKind| k is MemberAccess),
            final(self).index_accesses@ == old(self).index_accesses@
                + kinds_among(cpg, below_ids(*cpg, old(self).function, cpg.nodes_view().len() as int), |k: CpgNodeKind| k is IndexAccess),
            final(self).assignments@ == old(self).assignments@
                + kinds_among(cpg, below_ids(*cpg, old(self).function, cpg.nodes_view().len() as int), |k: CpgNodeKind| k is Assignment),
    {
        let descendants = cpg.ast_descendants(self.function);
        let ghost d = descendants@;
        let ghost start = *self;
        let ghost pa = |k: CpgNodeKind| k is Assignment;
        let mut k: usize = 0;
        while k < descendants.len()
            invariant
                cpg.wf(),
                d == descendants@,
                pa == (|k: CpgNodeKind| k is Assignment),
                forall|q: int| 0 <= q < d.len() ==> cpg.valid(#[trigger] d[q]),
                start.ok(cpg) ==> self.ok(cpg),
                self.function == start.function,
                self.uses@ == start.uses@,
                self.field_accesses@ == start.field_accesses@,
                self.index_accesses@ == start.index_accesses@,
                self.assignments@ == start.assignments@ + kinds_among(cpg, d.take(k as int), pa),
                forall|x: Seq<char>| #[trigger] self.definition_view(x) == match last_definition(cpg, d.take(k as int), x) {
                    Some(v) => Some(v),
                    None => start.definition_view(x),
                },
                k <= d.len(),
            decreases d.len() - k,
        {
            let id = descendants[k];
            let ghost before = *self;
            proof {
                assert(d.take(k as int + 1).drop_last() =~= d.take(k as int));
                assert(d.take(k as int + 1).last() == id);
                lemma_kinds_among_step(cpg, d, k as int, pa);
            }
            if let Some(node) = cpg.node(id) {
                match &node.kind {
                    CpgNodeKind::Variable { name, .. } => self.set_definition(name, id),
                    CpgNodeKind::Parameter { name, .. } => self.set_definition(name, id),
                    CpgNodeKind::Assignment { .. } => {
                        self.assignments.push(id);
                        let kids = kids_of(cpg, id);
                        if kids.len() > 0 {
                            if let Some(x) = identifier_name(cpg, kids[0]) {
                                self.set_definition(&x, id);
                            }
                        }
                    }
                    _ => {}
                }
            }
            proof {
                assert forall|x: Seq<char>| #[trigger] self.definition_view(x) == match last_definition(cpg, d.take(k as int + 1), x) {
                    Some(v) => Some(v),
                    None => start.definition_view(x),
                } by {
                    assert(before.definition_view(x) == match last_definition(cpg, d.take(k as int), x) {
                        Some(v) => Some(v),
                        None => start.definition_view(x),
                    });
                }
                assert(self.assignments@ =~= start.assignments@ + kinds_among(cpg, d.take(k as int + 1), pa));
            }
            k = k + 1;
        }
        proof {
            assert(d.take(d.len() as int) =~= d);
        }
        let ghost mid = *self;
        proof {
            assert forall|x: Seq<char>| #[trigger] mid.definition_view(x) == match last_definition(cpg, d, x) {
                Some(v) => Some(v),
                None => start.definition_view(x),
            } by {
                assert(mid.definition_view(x) == match last_definition(cpg, d.take(d.len() as int), x) {
                    Some(v) => Some(v),
                    None => start.definition_view(x),
                });
            }
        }
        let ghost pm = |k: CpgNodeKind| k is MemberAccess;
        let ghost pi = |k: CpgNodeKind| k is IndexAccess;
        let mut k: usize = 0;
        while k < descendants.len()
            invariant
                cpg.wf(),
                d == descendants@,
                pm == (|k: CpgNodeKind| k is MemberAccess),
                pi == (|k: CpgNodeKind| k is IndexAccess),
                forall|q: int| 0 <= q < d.len() ==> cpg.valid(#[trigger] d[q]),
                mid.ok(cpg) ==> self.ok(cpg),
                self.function == mid.function,
                self.definitions@ == mid.definitions@,
                self.assignments@ == mid.assignments@,
                self.field_accesses@ == mid.field_accesses@ + kinds_among(cpg, d.take(k as int), pm),
                self.index_accesses@ == mid.index_accesses@ + kinds_among(cpg, d.take(k as int), pi),
                forall|x: Seq<char>| #[trigger] self.uses_view(x) == mid.uses_view(x) + uses_among(cpg, d.take(k as int), x),
                k <= d.len(),
            decreases d.len() - k,
        {
            let id = descendants[k];
            let ghost before = *self;
            proof {
                lemma_kinds_among_step(cpg, d, k as int, pm);
                lemma_kinds_among_step(cpg, d, k as int, pi);
                assert forall|x: Seq<char>| uses_among(cpg, d.take(k as int + 1), x) ==
                    if use_of_name(cpg, id, x) { uses_among(cpg, d.take(k as int), x).push(id) } else { uses_among(cpg, d.take(k as int), x) } by {
                    lemma_uses_among_step(cpg, d, k as int, x);
                }
            }
            if let Some(node) = cpg.node(id) {
                match &node.kind {
                    CpgNodeKind::Identifier { name, .. } => {
                        let is_target = match node.parent {
                            Some(p) => match cpg.node(p) {
                                Some(pn) => match &pn.kind {
                                    CpgNodeKind::Assignment { .. } => {
                                        let pk = kids_of(cpg, p);
                                        pk.len() > 0 && pk[0] == id
                                    }
                                    _ => false,
                                },
                                None => false,
                            },
                            None => false,
                        };
                        assert(is_target == assignment_target(cpg, id));
                        if !is_target {
                            self.add_use(cpg, name, id);
                        }
                    }
                    CpgNodeKind::MemberAccess { .. } => {
                        self.field_accesses.push(id);
                    }
                    CpgNodeKind::IndexAccess => {
                        self.index_accesses.push(id);
                    }
                    _ => {}
                }
            }
            proof {
                assert(self.field_accesses@ =~= mid.field_accesses@ + kinds_among(cpg, d.take(k as int + 1), pm));
                assert(self.index_accesses@ =~= mid.index_accesses@ + kinds_among(cpg, d.take(k as int + 1), pi));
                assert forall|x: Seq<char>| #[trigger] self.uses_view(x) == mid.uses_view(x) + uses_among(cpg, d.take(k as int + 1), x) by {
                    assert(before.uses_view(x) == mid.uses_view(x) + uses_among(cpg, d.take(k as int), x));
                    if use_of_name(cpg, id, x) {
                        assert(self.uses_view(x) =~= mid.uses_view(x) + uses_among(cpg, d.take(k as int + 1), x));
                    }
                }
            }
            k = k + 1;
        }
        proof {
            assert(d.take(d.len() as int) =~= d);
            assert forall|x: Seq<char>| #[trigger] self.definition_view(x) == match last_definition(cpg, d, x) {
                Some(v) => Some(v),
                None => start.definition_view(x),
            } by {
                assert(self.definition_view(x) == mid.definition_view(x));
            }
        }
    }
}

/// The recorded uses of a name are identifiers of that name.
proof fn lemma_uses_view_ok(c: &DefUseCollector, g: &CodePropertyGraph, x: Seq<char>)
    requires
        c.ok(g),
    ensures
        forall|j: int| 0 <= j < c.uses_view(x).len() ==> g.valid(#[trigger] c.uses_view(x)[j]) && ident_name(g.at(c.uses_view(x)[j]).kind) == Some(x),
{
    assert forall|j: int| 0 <= j < c.uses_view(x).len() implies g.valid(#[trigger] c.uses_view(x)[j]) && ident_name(g.at(c.uses_view(x)[j]).kind) == Some(x) by {
        let i = lemma_first_uses_member(c.uses@, x, j);
    }
}

/// The uses of a name in the first entry with that key.
proof fn lemma_first_uses_at(s: Seq<(String, Vec<NodeId>)>, i: int)
    requires
        0 <= i < s.len(),
        forall|j: int| 0 <= j < i ==> s[j].0@ != s[i].0@,
    ensures
        first_uses(s, s[i].0@) == s[i].1@,
    decreases i,
{
    if i > 0 {
        lemma_first_uses_at(s.drop_first(), i - 1);
    }
}

/// No entry named `x` means no uses of `x`.
proof fn lemma_first_uses_absent(s: Seq<(String, Vec<NodeId>)>, x: Seq<char>)
    requires
        forall|j: int| 0 <= j < s.len() ==> s[j].0@ != x,
    ensures
        first_uses(s, x) == Seq::<NodeId>::empty(),
    decreases s.len(),
{
    if s.len() > 0 {
        lemma_first_uses_absent(s.drop_first(), x);
    }
}

proof fn lemma_kinds_among_step(g: &CodePropertyGraph, s: Seq<NodeId>, i: int, p: spec_fn(CpgNodeKind) -> bool)
    requires
        0 <= i < s.len(),
    ensures
        kinds_among(g, s.take(i + 1), p) == if g.valid(s[i]) && p(g.at(s[i]).kind) {
            kinds_among(g, s.take(i), p).push(s[i])
        } else {
            kinds_among(g, s.take(i), p)
        },
{
    reveal(Seq::filter);
    assert(s.take(i + 1).drop_last() =~= s.take(i));
    assert(s.take(i + 1).last() == s[i]);
}

proof fn lemma_uses_among_step(g: &CodePropertyGraph, s: Seq<NodeId>, i: int, x: Seq<char>)
    requires
        0 <= i < s.len(),
    ensures
        uses_among(g, s.take(i + 1), x) == if use_of_name(g, s[i], x) {
            uses_among(g, s.take(i), x).push(s[i])
        } else {
            uses_among(g, s.take(i), x)
        },
{
    reveal(Seq::filter);
    assert(s.take(i + 1).drop_last() =~= s.take(i));
    assert(s.take(i + 1).last() == s[i]);
}

/// Adds data-flow edges to a graph.
#[derive(Clone, Copy, Debug)]
pub struct DfgExtractor {
    config: DfgExtractorConfig,
}

impl Default for DfgExtractor {
    fn default() -> (r: Self)
        ensures
            r.config_view() == default_dfg_config(),
    {
        Self::new()
    }
}

impl DfgExtractor {
    /// The options in use.
    pub closed spec fn config_view(&self) -> DfgExtractorConfig {
        self.config
    }

    /// An extractor with the default options.
    pub fn new() -> (r: Self)
        ensures
            r.config_view() == default_dfg_config(),
    {
        DfgExtractor { config: DfgExtractorConfig::default() }
    }

    /// An extractor with the given options.
    pub fn with_config(config: DfgExtractorConfig) -> (r: Self)
        ensures
            r.config_view() == config,
    {
        DfgExtractor { config }
    }

    /// Adds data flow for every function of the graph, in node order: the
    /// edges of [`function_dfg`], each added once. Only data-flow edges are
    /// added, and every added def-use edge joins a definition to a use of the
    /// name it defines.
    pub fn extract(&self, cpg: &mut CodePropertyGraph)
        requires
            old(cpg).wf(),
        ensures
            dfg_grown(final(cpg), old(cpg)),
            dfg_extracted(self.config_view(), old(cpg), final(cpg)),
    {
        let functions = cpg.functions();
        let ghost cfg = self.config_view();
        let ghost a0 = ast_of(old(cpg));
        let ghost below = subtrees(old(cpg));
        let ghost n = old(cpg).nodes_view().len();
        proof {
            lemma_dfg_grown_refl(cpg);
            assert(functions@.take(0) =~= Seq::<NodeId>::empty());
        }
        let mut i: usize = 0;
        while i < functions.len()
            invariant
                dfg_grown(cpg, old(cpg)),
                i <= functions@.len(),
                functions@ == function_ids(old(cpg).nodes_view(), old(cpg).nodes_view().len() as int),
                cfg == self.config_view(),
                a0 == ast_of(old(cpg)),
                below == subtrees(old(cpg)),
                n == old(cpg).nodes_view().len(),
                cpg.edges_view() == with_edges(old(cpg).edges_view(), functions_dfg(cfg, a0, below, functions@.take(i as int)), n),
            decreases functions@.len() - i,
        {
            let ghost before = *cpg;
            proof { lemma_syntax_kept(old(cpg), &before); }
            self.extract_function_dfg(cpg, functions[i]);
            proof {
                lemma_dfg_grown_trans(old(cpg), &before, cpg);
                let f = functions@[i as int];
                let done = functions@.take(i as int);
                assert(functions@.take(i + 1).drop_last() =~= done);
                assert(functions@.take(i + 1).last() == f);
                assert(below(f) == below_ids(before, f, n as int));
                lemma_with_edges_compose(old(cpg).edges_view(), functions_dfg(cfg, a0, below, done),
                    function_dfg(cfg, a0, below(f), f), n);
            }
            i = i + 1;
        }
        proof { assert(functions@.take(i as int) =~= functions@); }
    }

    /// Adds data flow for one function: the edges of [`function_dfg`], each
    /// added once: def-use edges from the reaching-definitions sweep, then (as
    /// the options ask) argument-to-parameter and parameter def-use edges,
    /// returned-value edges, and field and index read edges.
    pub fn extract_function_dfg(&self, cpg: &mut CodePropertyGraph, function: NodeId)
        requires
            old(cpg).wf(),
        ensures
            dfg_grown(final(cpg), old(cpg)),
            final(cpg).edges_view() == with_edges(old(cpg).edges_view(),
                function_dfg(self.config_view(), ast_of(old(cpg)), below_ids(*old(cpg), function, old(cpg).nodes_view().len() as int), function),
                old(cpg).nodes_view().len()),
    {
        let ghost a = ast_of(cpg);
        let ghost below = below_ids(*cpg, function, cpg.nodes_view().len() as int);
        let mut collector = DefUseCollector::new(function);
        assert(collector.ok(cpg));
        collector.collect_into(cpg);
        proof {
            assert forall|x: Seq<char>| #[trigger] collector.uses_view(x) == uses_in(a, below, x) by {
                lemma_uses_in(cpg, below, x);
                assert(collector.uses_view(x) =~= uses_among(cpg, below, x));
            }
            lemma_of_kind(cpg, below, |k: CpgNodeKind| k is MemberAccess);
            lemma_of_kind(cpg, below, |k: CpgNodeKind| k is IndexAccess);
            assert(collector.fields_view() =~= of_kind(a, below, |k: CpgNodeKind| k is MemberAccess));
            assert(collector.indexes_view() =~= of_kind(a, below, |k: CpgNodeKind| k is IndexAccess));
        }
        let mut plan: Vec<CpgEdge> = Vec::new();
        Self::plan_def_use_edges(cpg, function, &mut plan);
        let ghost p1 = plan@;
        if self.config.include_parameters {
            Self::plan_parameter_edges(cpg, function, &collector, &mut plan);
        }
        let ghost p2 = plan@;
        if self.config.include_return_values {
            Self::plan_return_edges(cpg, function, &mut plan);
        }
        let ghost p3 = plan@;
        if self.config.include_field_access {
            Self::plan_field_access_edges(cpg, &collector, &mut plan);
        }
        proof {
            assert(p1 =~= pair_edges(def_use_pairs(a, function)));
            assert(plan@ =~= function_dfg(self.config_view(), a, below, function));
        }
        Self::wire(cpg, &plan);
    }

    /// Adds each planned edge in turn, unless present or joining a node
    /// outside the graph.
    fn wire(cpg: &mut CodePropertyGraph, plan: &Vec<CpgEdge>)
        requires
            old(cpg).wf(),
            plan_ok(old(cpg), plan@),
        ensures
            dfg_grown(final(cpg), old(cpg)),
            final(cpg).edges_view() == with_edges(old(cpg).edges_view(), plan@, old(cpg).nodes_view().len()),
    {
        proof {
            lemma_dfg_grown_refl(cpg);
            assert(plan@.take(0) =~= Seq::<CpgEdge>::empty());
        }
        let mut j: usize = 0;
        while j < plan.len()
            invariant
                dfg_grown(cpg, old(cpg)),
                plan_ok(old(cpg), plan@),
                cpg.edges_view() == with_edges(old(cpg).edges_view(), plan@.take(j as int), old(cpg).nodes_view().len()),
                j <= plan@.len(),
            decreases plan@.len() - j,
        {
            let e = plan[j];
            let ghost before = *cpg;
            proof {
                assert(plan@.take(j + 1).drop_last() =~= plan@.take(j as int));
                assert(plan@.take(j + 1).last() == e);
                assert(e.kind.spec_is_dfg() && sound_edge(old(cpg), e));
            }
            match e.kind {
                CpgEdgeKind::DataFlow(k) => {
                    proof {
                        if k == DfgEdgeKind::DefUse {
                            lemma_dfg_children(old(cpg), &before, e.source);
                        }
                    }
                    flow_link(cpg, e.source, e.target, k);
                    proof { lemma_dfg_grown_trans(old(cpg), &before, cpg); }
                },
                _ => {},
            }
            j = j + 1;
        }
        proof { assert(plan@.take(j as int) =~= plan@); }
    }

    /// Def-use edges from the reaching-definitions sweep of the function's
    /// children (parameters come before the body in syntax order).
    fn plan_def_use_edges(cpg: &CodePropertyGraph, function: NodeId, plan: &mut Vec<CpgEdge>)
        requires
            cpg.wf(),
            plan_ok(cpg, old(plan)@),
        ensures
            plan_ok(cpg, final(plan)@),
            final(plan)@ == old(plan)@ + pair_edges(def_use_pairs(ast_of(cpg), function)),
    {
        let ghost a = ast_of(cpg);
        let n = cpg.node_count();
        let mut env = ReachingEnv::new();
        let mut pairs: Vec<(NodeId, NodeId)> = Vec::new();
        let mut on_path: Vec<bool> = Vec::new();
        let mut i: usize = 0;
        while i < n
            invariant
                i <= n,
                on_path@ == Seq::new(i as nat, |q: int| q == function.0 as int),
            decreases n - i,
        {
            on_path.push(i == function.0 as usize);
            proof { assert(on_path@ =~= Seq::new((i + 1) as nat, |q: int| q == function.0 as int)); }
            i = i + 1;
        }
        let kids = kids_of(cpg, function);
        let ghost s0 = sweep_state(&env, pairs@, on_path@);
        proof {
            assert(s0 =~~= start_sweep(a.nodes.len(), function));
        }
        let mut k: usize = 0;
        while k < kids.len()
            invariant
                cpg.wf(),
                n == cpg.nodes_view().len(),
                env.sound(cpg),
                pairs_sound(cpg, pairs@),
                on_path@.len() == n,
                k <= kids@.len(),
                a == ast_of(cpg),
                kids@ == (a.children)(function),
                s0 == start_sweep(a.nodes.len(), function),
                sweep_kids(a, kids@, 0, None, false, s0, false, n as nat)
                    == sweep_kids(a, kids@, k as int, None, false, sweep_state(&env, pairs@, on_path@), false, n as nat),
            decreases kids@.len() - k,
        {
            visit_reaching(cpg, kids[k], &mut env, false, &mut pairs, &mut on_path, n);
            k = k + 1;
        }
        proof {
            assert(pairs@ == def_use_pairs(a, function));
            assert(old(plan)@ + pair_edges(pairs@.take(0)) =~= old(plan)@);
        }
        let mut k: usize = 0;
        while k < pairs.len()
            invariant
                cpg.wf(),
                pairs_sound(cpg, pairs@),
                plan_ok(cpg, plan@),
                k <= pairs@.len(),
                plan@ == old(plan)@ + pair_edges(pairs@.take(k as int)),
            decreases pairs@.len() - k,
        {
            let (d, u) = pairs[k];
            proof {
                assert(pairs@.take(k + 1).drop_last() =~= pairs@.take(k as int));
                assert(pairs@.take(k + 1).last() == pairs@[k as int]);
            }
            if d != u {
                proof { assert(def_reaches_use(cpg, pairs@[k as int].0, pairs@[k as int].1)); }
                plan.push(CpgEdge { source: d, target: u, kind: CpgEdgeKind::DataFlow(DfgEdgeKind::DefUse) });
                proof {
                    assert(plan@ =~= old(plan)@ + pair_edges(pairs@.take(k + 1)));
                }
            } else {
                proof {
                    assert(plan@ =~= old(plan)@ + pair_edges(pairs@.take(k + 1)));
                }
            }
            k = k + 1;
        }
        proof { assert(pairs@.take(k as int) =~= pairs@); }
    }

    /// Each argument of each call of the function flows to the parameter at
    /// its position; each parameter that is a direct child of the function
    /// reaches every use of its name.
    fn plan_parameter_edges(cpg: &CodePropertyGraph, function: NodeId, collector: &DefUseCollector, plan: &mut Vec<CpgEdge>)
        requires
            cpg.wf(),
            collector.ok(cpg),
            forall|x: Seq<char>| #[trigger] collector.uses_view(x)
                == uses_in(ast_of(cpg), below_ids(*cpg, function, cpg.nodes_view().len() as int), x),
            plan_ok(cpg, old(plan)@),
        ensures
            plan_ok(cpg, final(plan)@),
            final(plan)@ == old(plan)@ + param_edges(ast_of(cpg), below_ids(*cpg, function, cpg.nodes_view().len() as int), function),
    {
        let ghost a = ast_of(cpg);
        let ghost below = below_ids(*cpg, function, cpg.nodes_view().len() as int);
        let kids = kids_of(cpg, function);
        let mut params: Vec<NodeId> = Vec::new();
        let mut k: usize = 0;
        proof { assert(kids@.take(0) =~= Seq::<NodeId>::empty()); }
        while k < kids.len()
            invariant
                cpg.wf(),
                a == ast_of(cpg),
                forall|q: int| 0 <= q < kids@.len() ==> cpg.valid(#[trigger] kids@[q]),
                forall|q: int| 0 <= q < params@.len() ==> cpg.valid(#[trigger] params@[q]) && cpg.at(params@[q]).kind is Parameter,
                k <= kids@.len(),
                params@ == params_in(a, kids@.take(k as int)),
            decreases kids@.len() - k,
        {
            proof {
                assert(kids@.take(k + 1).drop_last() =~= kids@.take(k as int));
                assert(kids@.take(k + 1).last() == kids@[k as int]);
            }
            if let Some(node) = cpg.node(kids[k]) {
                if let CpgNodeKind::Parameter { .. } = &node.kind {
                    params.push(kids[k]);
                    proof { assert(params@ =~= params_in(a, kids@.take(k + 1))); }
                } else {
                    proof { assert(params@ =~= params_in(a, kids@.take(k + 1))); }
                }
            }
            k = k + 1;
        }
        proof { assert(kids@.take(k as int) =~= kids@); }
        let callers = cpg.callers(function);
        let ghost p0 = plan@;
        let mut c: usize = 0;
        proof { assert(callers@.take(0) =~= Seq::<NodeId>::empty()); assert(p0 + caller_edges(a, callers@.take(0), params@) =~= p0); }
        while c < callers.len()
            invariant
                cpg.wf(),
                a == ast_of(cpg),
                plan_ok(cpg, plan@),
                c <= callers@.len(),
                plan@ == p0 + caller_edges(a, callers@.take(c as int), params@),
            decreases callers@.len() - c,
        {
            let args = kids_of(cpg, callers[c]);
            let ghost pc = plan@;
            let mut p: usize = 0;
            proof { assert(pc + arg_edges(args@, params@, 0) =~= pc); }
            while p < params.len()
                invariant
                    cpg.wf(),
                    plan_ok(cpg, plan@),
                    p <= params@.len(),
                    plan@ == pc + arg_edges(args@, params@, p as int),
                decreases params@.len() - p,
            {
                if p < args.len() {
                    plan.push(CpgEdge { source: args[p], target: params[p], kind: CpgEdgeKind::DataFlow(DfgEdgeKind::Parameter) });
                }
                proof { assert(plan@ =~= pc + arg_edges(args@, params@, p + 1)); }
                p = p + 1;
            }
            proof {
                assert(callers@.take(c + 1).drop_last() =~= callers@.take(c as int));
                assert(callers@.take(c + 1).last() == callers@[c as int]);
                assert(plan@ =~= p0 + caller_edges(a, callers@.take(c + 1), params@));
            }
            c = c + 1;
        }
        proof { assert(callers@.take(c as int) =~= callers@); }
        let ghost pm = plan@;
        let mut p: usize = 0;
        proof { assert(params@.take(0) =~= Seq::<NodeId>::empty()); assert(pm + param_use_edges(a, below, params@.take(0)) =~= pm); }
        while p < params.len()
            invariant
                cpg.wf(),
                a == ast_of(cpg),
                below == below_ids(*cpg, function, cpg.nodes_view().len() as int),
                collector.ok(cpg),
                forall|x: Seq<char>| #[trigger] collector.uses_view(x) == uses_in(a, below, x),
                forall|q: int| 0 <= q < params@.len() ==> cpg.valid(#[trigger] params@[q]) && cpg.at(params@[q]).kind is Parameter,
                plan_ok(cpg, plan@),
                p <= params@.len(),
                plan@ == pm + param_use_edges(a, below, params@.take(p as int)),
            decreases params@.len() - p,
        {
            let param = params[p];
            let name = match cpg.node(param) {
                Some(n) => n.name(),
                None => None,
            };
            let ghost pp = plan@;
            proof {
                assert(params@.take(p + 1).drop_last() =~= params@.take(p as int));
                assert(params@.take(p + 1).last() == param);
            }
            if let Some(x) = name {
                proof {
                    assert(declared_name(a, param) == Some(x@));
                    lemma_uses_view_ok(collector, cpg, x@);
                }
                let uses = collector.uses_of(x.as_str());
                let binder = binder_identifier(cpg, param, x.as_str());
                let ghost b = binder_of(a, param, x@);
                let mut u: usize = 0;
                proof { assert(uses@.take(0) =~= Seq::<NodeId>::empty()); assert(pp + dfg_fan(param, others(uses@.take(0), param, b), DfgEdgeKind::DefUse) =~= pp); }
                while u < uses.len()
                    invariant
                        cpg.wf(),
                        plan_ok(cpg, plan@),
                        cpg.valid(param),
                        cpg.at(param).kind is Parameter,
                        cpg.at(param).spec_name() == Some(x@),
                        forall|j: int| 0 <= j < uses@.len() ==> cpg.valid(#[trigger] uses@[j]) && ident_name(cpg.at(uses@[j]).kind) == Some(x@),
                        u <= uses@.len(),
                        binder == b,
                        plan@ == pp + dfg_fan(param, others(uses@.take(u as int), param, b), DfgEdgeKind::DefUse),
                    decreases uses@.len() - u,
                {
                    proof {
                        assert(uses@.take(u + 1).drop_last() =~= uses@.take(u as int));
                        assert(uses@.take(u + 1).last() == uses@[u as int]);
                    }
                    let is_binder = match binder {
                        Some(c) => c == uses[u],
                        None => false,
                    };
                    if param != uses[u] && !is_binder {
                        proof { assert(def_reaches_use(cpg, param, uses@[u as int])); }
                        plan.push(CpgEdge { source: param, target: uses[u], kind: CpgEdgeKind::DataFlow(DfgEdgeKind::DefUse) });
                    }
                    proof {
                        assert(plan@ =~= pp + dfg_fan(param, others(uses@.take(u + 1), param, b), DfgEdgeKind::DefUse));
                    }
                    u = u + 1;
                }
                proof {
                    assert(uses@.take(u as int) =~= uses@);
                    assert(plan@ =~= pm + param_use_edges(a, below, params@.take(p + 1)));
                }
            } else {
                proof {
                    assert(declared_name(a, param) is None);
                    assert(plan@ =~= pm + param_use_edges(a, below, params@.take(p + 1)));
                }
            }
            p = p + 1;
        }
        proof {
            assert(params@.take(p as int) =~= params@);
            assert(plan@ =~= old(plan)@ + param_edges(a, below, function));
        }
    }

    /// The value of each return statement's expression flows to every call of
    /// the function.
    fn plan_return_edges(cpg: &CodePropertyGraph, function: NodeId, plan: &mut Vec<CpgEdge>)
        requires
            cpg.wf(),
            plan_ok(cpg, old(plan)@),
        ensures
            plan_ok(cpg, final(plan)@),
            final(plan)@ == old(plan)@ + return_edges(ast_of(cpg), below_ids(*cpg, function, cpg.nodes_view().len() as int),
                callers_of(cpg.nodes_view(), function, cpg.nodes_view().len() as int)),
    {
        let ghost a = ast_of(cpg);
        let descendants = cpg.ast_descendants(function);
        let callers = cpg.callers(function);
        let mut k: usize = 0;
        proof {
            assert(descendants@.take(0) =~= Seq::<NodeId>::empty());
            assert(old(plan)@ + return_edges(a, descendants@.take(0), callers@) =~= old(plan)@);
        }
        while k < descendants.len()
            invariant
                cpg.wf(),
                a == ast_of(cpg),
                plan_ok(cpg, plan@),
                k <= descendants@.len(),
                plan@ == old(plan)@ + return_edges(a, descendants@.take(k as int), callers@),
            decreases descendants@.len() - k,
        {
            let d = descendants[k];
            let ghost pk = plan@;
            proof {
                assert(descendants@.take(k + 1).drop_last() =~= descendants@.take(k as int));
                assert(descendants@.take(k + 1).last() == d);
            }
            let is_return = match cpg.node(d) {
                Some(n) => match &n.kind {
                    CpgNodeKind::Return => true,
                    _ => false,
                },
                None => false,
            };
            if is_return {
                let ret_kids = kids_of(cpg, d);
                if ret_kids.len() > 0 {
                    let expr = ret_kids[0];
                    let mut c: usize = 0;
                    proof { assert(callers@.take(0) =~= Seq::<NodeId>::empty()); assert(pk + dfg_fan(expr, callers@.take(0), DfgEdgeKind::ReturnValue) =~= pk); }
                    while c < callers.len()
                        invariant
                            plan_ok(cpg, plan@),
                            c <= callers@.len(),
                            plan@ == pk + dfg_fan(expr, callers@.take(c as int), DfgEdgeKind::ReturnValue),
                        decreases callers@.len() - c,
                    {
                        plan.push(CpgEdge { source: expr, target: callers[c], kind: CpgEdgeKind::DataFlow(DfgEdgeKind::ReturnValue) });
                        proof {
                            assert(callers@.take(c + 1) =~= callers@.take(c as int).push(callers@[c as int]));
                            assert(plan@ =~= pk + dfg_fan(expr, callers@.take(c + 1), DfgEdgeKind::ReturnValue));
                        }
                        c = c + 1;
                    }
                    proof { assert(callers@.take(c as int) =~= callers@); }
                }
            }
            proof { assert(plan@ =~= old(plan)@ + return_edges(a, descendants@.take(k + 1), callers@)); }
            k = k + 1;
        }
        proof { assert(descendants@.take(k as int) =~= descendants@); }
    }

    /// A member access reads its object; an indexed access reads its array and
    /// depends on its index.
    fn plan_field_access_edges(cpg: &CodePropertyGraph, collector: &DefUseCollector, plan: &mut Vec<CpgEdge>)
        requires
            cpg.wf(),
            plan_ok(cpg, old(plan)@),
        ensures
            plan_ok(cpg, final(plan)@),
            final(plan)@ == old(plan)@ + member_edges(ast_of(cpg), collector.fields_view())
                + index_edges(ast_of(cpg), collector.indexes_view()),
    {
        let ghost a = ast_of(cpg);
        let mut k: usize = 0;
        proof {
            assert(collector.field_accesses@.take(0) =~= Seq::<NodeId>::empty());
            assert(old(plan)@ + member_edges(a, collector.field_accesses@.take(0)) =~= old(plan)@);
        }
        while k < collector.field_accesses.len()
            invariant
                cpg.wf(),
                a == ast_of(cpg),
                plan_ok(cpg, plan@),
                k <= collector.field_accesses@.len(),
                plan@ == old(plan)@ + member_edges(a, collector.field_accesses@.take(k as int)),
            decreases collector.field_accesses@.len() - k,
        {
            let node = collector.field_accesses[k];
            proof {
                assert(collector.field_accesses@.take(k + 1).drop_last() =~= collector.field_accesses@.take(k as int));
                assert(collector.field_accesses@.take(k + 1).last() == node);
            }
            let kids = kids_of(cpg, node);
            if kids.len() > 0 {
                plan.push(CpgEdge { source: kids[0], target: node, kind: CpgEdgeKind::DataFlow(DfgEdgeKind::FieldRead) });
            }
            proof { assert(plan@ =~= old(plan)@ + member_edges(a, collector.field_accesses@.take(k + 1))); }
            k = k + 1;
        }
        proof { assert(collector.field_accesses@.take(k as int) =~= collector.field_accesses@); }
        let ghost pm = plan@;
        let mut k: usize = 0;
        proof {
            assert(collector.index_accesses@.take(0) =~= Seq::<NodeId>::empty());
            assert(pm + index_edges(a, collector.index_accesses@.take(0)) =~= pm);
        }
        while k < collector.index_accesses.len()
            invariant
                cpg.wf(),
                a == ast_of(cpg),
                plan_ok(cpg, plan@),
                k <= collector.index_accesses@.len(),
                plan@ == pm + index_edges(a, collector.index_accesses@.take(k as int)),
            decreases collector.index_accesses@.len() - k,
        {
            let node = collector.index_accesses[k];
            proof {
                assert(collector.index_accesses@.take(k + 1).drop_last() =~= collector.index_accesses@.take(k as int));
                assert(collector.index_accesses@.take(k + 1).last() == node);
            }
            let kids = kids_of(cpg, node);
            if kids.len() >= 2 {
                plan.push(CpgEdge { source: kids[0], target: node, kind: CpgEdgeKind::DataFlow(DfgEdgeKind::IndexRead) });
                plan.push(CpgEdge { source: kids[1], target: node, kind: CpgEdgeKind::DataFlow(DfgEdgeKind::DataDependency) });
            }
            proof { assert(plan@ =~= pm + index_edges(a, collector.index_accesses@.take(k + 1))); }
            k = k + 1;
        }
        proof { assert(collector.index_accesses@.take(k as int) =~= collector.index_accesses@); }
    }
}

/// Every planned edge is a data-flow edge, and every planned def-use edge
/// joins a definition to a use of its name.
spec fn plan_ok(g: &CodePropertyGraph, plan: Seq<CpgEdge>) -> bool {
    forall|k: int| 0 <= k < plan.len() ==> (#[trigger] plan[k]).kind.spec_is_dfg() && sound_edge(g, plan[k])
}

// ---------------------------------------------------------------------------
// Definitions, uses and def-use chains
// ---------------------------------------------------------------------------

/// How a variable is defined.
#[derive(Clone, Copy, Debug, PartialEq, Eq, Structural, Hash)]
pub enum DefinitionKind {
    Declaration,
    Assignment,
    Parameter,
    FieldWrite,
    IndexWrite,
}

/// A definition point.
#[derive(Clone, Debug, PartialEq, Eq)]
pub struct Definition {
    /// The variable defined.
    pub variable: String,
    /// Where.
    pub node: NodeId,
    /// How.
    pub kind: DefinitionKind,
}

/// How a variable is used.
#[derive(Clone, Copy, Debug, PartialEq, Eq, Structural, Hash)]
pub enum UseKind {
    Read,
    FieldRead,
    IndexRead,
    Argument,
}

/// A use point.
#[derive(Clone, Debug, PartialEq, Eq)]
pub struct Use {
    /// The variable used.
    pub variable: String,
    /// Where.
    pub node: NodeId,
    /// How.
    pub kind: UseKind,
}

/// The list a key maps to in an association list: the first entry with that
/// key, or empty.
pub open spec fn assoc(s: Seq<(NodeId, Vec<NodeId>)>, k: NodeId) -> Seq<NodeId>
    decreases s.len(),
{
    if s.len() == 0 {
        Seq::empty()
    } else if s[0].0 == k {
        s[0].1@
    } else {
        assoc(s.drop_first(), k)
    }
}

/// Index of the first entry with key `k`.
spec fn first_key(s: Seq<(NodeId, Vec<NodeId>)>, k: NodeId, i: int) -> bool {
    0 <= i < s.len() && s[i].0 == k && forall|j: int| 0 <= j < i ==> s[j].0 != k
}

proof fn lemma_assoc_at(s: Seq<(NodeId, Vec<NodeId>)>, k: NodeId, i: int)
    requires
        first_key(s, k, i),
    ensures
        assoc(s, k) == s[i].1@,
    decreases i,
{
    if i > 0 {
        assert(first_key(s.drop_first(), k, i - 1)) by {
            assert forall|j: int| 0 <= j < i - 1 implies s.drop_first()[j].0 != k by {
                assert(s.drop_first()[j] == s[j + 1]);
            }
        }
        lemma_assoc_at(s.drop_first(), k, i - 1);
    }
}

proof fn lemma_assoc_absent(s: Seq<(NodeId, Vec<NodeId>)>, k: NodeId)
    requires
        forall|j: int| 0 <= j < s.len() ==> s[j].0 != k,
    ensures
        assoc(s, k) == Seq::<NodeId>::empty(),
    decreases s.len(),
{
    if s.len() > 0 {
        assert forall|j: int| 0 <= j < s.drop_first().len() implies s.drop_first()[j].0 != k by {
            assert(s.drop_first()[j] == s[j + 1]);
        }
        lemma_assoc_absent(s.drop_first(), k);
    }
}

/// Changing the entry at `i` leaves the lists of other keys alone when the
/// key at `i` stays the same.
proof fn lemma_assoc_update_other(s: Seq<(NodeId, Vec<NodeId>)>, i: int, v: (NodeId, Vec<NodeId>), k: NodeId)
    requires
        0 <= i < s.len(),
        v.0 == s[i].0,
        k != s[i].0,
    ensures
        assoc(s.update(i, v), k) == assoc(s, k),
    decreases s.len(),
{
    if i == 0 {
        assert(s.update(i, v).drop_first() =~= s.drop_first());
    } else if s[0].0 != k {
        assert(s.update(i, v).drop_first() =~= s.drop_first().update(i - 1, v));
        lemma_assoc_update_other(s.drop_first(), i - 1, v, k);
    } else {
        assert(s.update(i, v)[0] == s[0]);
    }
}

/// Appending an entry with a new key leaves the lists of other keys alone.
proof fn lemma_assoc_push_other(s: Seq<(NodeId, Vec<NodeId>)>, v: (NodeId, Vec<NodeId>), k: NodeId)
    requires
        v.0 != k,
    ensures
        assoc(s.push(v), k) == assoc(s, k),
    decreases s.len(),
{
    if s.len() == 0 {
        assert(s.push(v).drop_first() =~= Seq::<(NodeId, Vec<NodeId>)>::empty());
        assert(assoc(s.push(v).drop_first(), k) == Seq::<NodeId>::empty());
    } else if s[0].0 != k {
        assert(s.push(v).drop_first() =~= s.drop_first().push(v));
        lemma_assoc_push_other(s.drop_first(), v, k);
    } else {
        assert(s.push(v)[0] == s[0]);
    }
}

/// Appends `value` to the list of `key`.
fn assoc_push(s: &mut Vec<(NodeId, Vec<NodeId>)>, key: NodeId, value: NodeId)
    ensures
        assoc(final(s)@, key) == assoc(old(s)@, key).push(value),
        forall|k: NodeId| k != key ==> assoc(final(s)@, k) == assoc(old(s)@, k),
{
    let mut i: usize = 0;
    while i < s.len()
        invariant
            s@ == old(s)@,
            i <= s@.len(),
            forall|j: int| 0 <= j < i ==> s@[j].0 != key,
        decreases s@.len() - i,
    {
        if s[i].0 == key {
            let ghost before = s@;
            let mut v = s[i].1.clone();
            v.push(value);
            s.set(i, (key, v));
            proof {
                assert(first_key(before, key, i as int));
                lemma_assoc_at(before, key, i as int);
                assert(first_key(s@, key, i as int));
                lemma_assoc_at(s@, key, i as int);
                assert forall|k: NodeId| k != key implies assoc(s@, k) == assoc(before, k) by {
                    lemma_assoc_update_other(before, i as int, (key, v), k);
                }
            }
            return;
        }
        i = i + 1;
    }
    let ghost before = s@;
    let fresh = (key, vec![value]);
    let ghost entry = fresh;
    s.push(fresh);
    proof {
        lemma_assoc_absent(before, key);
        assert(first_key(s@, key, before.len() as int));
        lemma_assoc_at(s@, key, before.len() as int);
        assert(s@[before.len() as int].1@ =~= Seq::<NodeId>::empty().push(value));
        assert forall|k: NodeId| k != key implies assoc(s@, k) == assoc(before, k) by {
            lemma_assoc_push_other(before, entry, k);
        }
    }
}

/// Looks up the list of `key`.
fn assoc_get(s: &Vec<(NodeId, Vec<NodeId>)>, key: NodeId) -> (r: Vec<NodeId>)
    ensures
        r@ == assoc(s@, key),
{
    let mut i: usize = 0;
    while i < s.len()
        invariant
            i <= s@.len(),
            forall|j: int| 0 <= j < i ==> s@[j].0 != key,
        decreases s@.len() - i,
    {
        if s[i].0 == key {
            proof {
                assert(first_key(s@, key, i as int));
                lemma_assoc_at(s@, key, i as int);
            }
            return s[i].1.clone();
        }
        i = i + 1;
    }
    proof { lemma_assoc_absent(s@, key); }
    Vec::new()
}

/// The definitions and uses of one variable and which definitions reach which uses.
#[derive(Clone, Debug)]
pub struct DefUseChain {
    /// The variable.
    pub variable: String,
    /// Its definitions, each once.
    pub definitions: Vec<NodeId>,
    /// Its uses, each once.
    pub uses: Vec<NodeId>,
    /// For each definition, the uses it reaches.
    pub def_to_uses: Vec<(NodeId, Vec<NodeId>)>,
    /// For each use, the definitions reaching it.
    pub use_to_defs: Vec<(NodeId, Vec<NodeId>)>,
}

impl DefUseChain {
    /// An empty chain for `variable`.
    pub fn new(variable: String) -> (r: DefUseChain)
        ensures
            r.variable@ == variable@,
            r.definitions@.len() == 0,
            r.uses@.len() == 0,
            forall|k: NodeId| assoc(r.def_to_uses@, k).len() == 0 && assoc(r.use_to_defs@, k).len() == 0,
    {
        DefUseChain { variable, definitions: Vec::new(), uses: Vec::new(), def_to_uses: Vec::new(), use_to_defs: Vec::new() }
    }

    /// Records a definition (once).
    pub fn add_definition(&mut self, def: NodeId)
        ensures
            final(self).definitions@ == if old(self).definitions@.contains(def) { old(self).definitions@ } else { old(self).definitions@.push(def) },
            final(self).uses@ == old(self).uses@,
            final(self).def_to_uses@ == old(self).def_to_uses@,
            final(self).use_to_defs@ == old(self).use_to_defs@,
            final(self).variable@ == old(self).variable@,
    {
        if !crate::graph::contains_id(&self.definitions, def) {
            self.definitions.push(def);
        }
    }

    /// Records a use (once).
    pub fn add_use(&mut self, use_site: NodeId)
        ensures
            final(self).uses@ == if old(self).uses@.contains(use_site) { old(self).uses@ } else { old(self).uses@.push(use_site) },
            final(self).definitions@ == old(self).definitions@,
            final(self).def_to_uses@ == old(self).def_to_uses@,
            final(self).use_to_defs@ == old(self).use_to_defs@,
            final(self).variable@ == old(self).variable@,
    {
        if !crate::graph::contains_id(&self.uses, use_site) {
            self.uses.push(use_site);
        }
    }

    /// Records that `def` reaches `use_site`.
    pub fn link(&mut self, def: NodeId, use_site: NodeId)
        ensures
            assoc(final(self).def_to_uses@, def) == assoc(old(self).def_to_uses@, def).push(use_site),
            forall|k: NodeId| k != def ==> assoc(final(self).def_to_uses@, k) == assoc(old(self).def_to_uses@, k),
            assoc(final(self).use_to_defs@, use_site) == assoc(old(self).use_to_defs@, use_site).push(def),
            forall|k: NodeId| k != use_site ==> assoc(final(self).use_to_defs@, k) == assoc(old(self).use_to_defs@, k),
            final(self).definitions@ == old(self).definitions@,
            final(self).uses@ == old(self).uses@,
            final(self).variable@ == old(self).variable@,
    {
        assoc_push(&mut self.def_to_uses, def, use_site);
        assoc_push(&mut self.use_to_defs, use_site, def);
    }

    /// The uses `def` reaches.
    pub fn uses_of(&self, def: NodeId) -> (r: Vec<NodeId>)
        ensures
            r@ == assoc(self.def_to_uses@, def),
    {
        assoc_get(&self.def_to_uses, def)
    }

    /// The definitions reaching `use_site`.
    pub fn definitions_of(&self, use_site: NodeId) -> (r: Vec<NodeId>)
        ensures
            r@ == assoc(self.use_to_defs@, use_site),
    {
        assoc_get(&self.use_to_defs, use_site)
    }
}

/// The variable a definition node defines: a declaration's or parameter's
/// name, or the identifier an assignment writes.
pub open spec fn defined_name(g: &CodePropertyGraph, d: NodeId) -> Option<Seq<char>> {
    if !g.valid(d) {
        None
    } else {
        match g.at(d).kind {
            CpgNodeKind::Variable { name, .. } => Some(name@),
            CpgNodeKind::Parameter { name, .. } => Some(name@),
            CpgNodeKind::Assignment { .. } =>
                if children(g, d).len() > 0 && g.valid(children(g, d)[0]) { ident_name(g.at(children(g, d)[0]).kind) } else { None },
            _ => None,
        }
    }
}

fn name_defined_by(cpg: &CodePropertyGraph, d: NodeId) -> (r: Option<String>)
    requires
        cpg.wf(),
    ensures
        crate::graph::opt_view(r) == defined_name(cpg, d),
{
    match cpg.node(d) {
        Some(n) => match &n.kind {
            CpgNodeKind::Variable { name, .. } => Some(name.clone()),
            CpgNodeKind::Parameter { name, .. } => Some(name.clone()),
            CpgNodeKind::Assignment { .. } => {
                let kids = kids_of(cpg, d);
                if kids.len() > 0 { identifier_name(cpg, kids[0]) } else { None }
            }
            _ => None,
        },
        None => None,
    }
}

/// Position of the chain of `name`, or the number of chains when there is none.
fn find_chain(chains: &Vec<DefUseChain>, name: &str) -> (r: usize)
    ensures
        r <= chains@.len(),
        r < chains@.len() ==> chains@[r as int].variable@ == name@,
        r == chains@.len() ==> forall|q: int| 0 <= q < chains@.len() ==> chains@[q].variable@ != name@,
{
    let mut c: usize = 0;
    while c < chains.len()
        invariant
            c <= chains@.len(),
            forall|q: int| 0 <= q < c ==> chains@[q].variable@ != name@,
        decreases chains@.len() - c,
    {
        if str_eq(chains[c].variable.as_str(), name) {
            return c;
        }
        c = c + 1;
    }
    c
}

/// `n` is `function` or has it among its syntax-tree ancestors.
pub open spec fn within_function(g: &CodePropertyGraph, n: NodeId, function: NodeId) -> bool {
    n == function || crate::graph::ancestor_chain(g, n, g.nodes_view().len() as nat).contains(function)
}

/// Whether `n` is `function` or lies below it in the syntax tree.
fn in_function(cpg: &CodePropertyGraph, n: NodeId, function: NodeId) -> (r: bool)
    requires
        cpg.wf(),
    ensures
        r == within_function(cpg, n, function),
{
    n == function || crate::graph::contains_id(&cpg.ast_ancestors(n), function)
}

/// A def-use edge with both ends in `function` whose source defines a name:
/// one that a def-use chain of the function records.
pub open spec fn chain_edge(g: &CodePropertyGraph, function: NodeId, e: CpgEdge) -> bool {
    &&& e.kind == CpgEdgeKind::DataFlow(DfgEdgeKind::DefUse)
    &&& within_function(g, e.source, function)
    &&& within_function(g, e.target, function)
    &&& defined_name(g, e.source) is Some
}

/// The edges of `s` that def-use chains of `function` record, in order.
pub open spec fn chain_edges(g: &CodePropertyGraph, function: NodeId, s: Seq<CpgEdge>) -> Seq<CpgEdge>
    decreases s.len(),
{
    if s.len() == 0 {
        Seq::empty()
    } else {
        chain_edges(g, function, s.drop_last()) + if chain_edge(g, function, s.last()) { seq![s.last()] } else { Seq::empty() }
    }
}

/// The name the source of `e` defines.
pub open spec fn edge_name(g: &CodePropertyGraph, e: CpgEdge) -> Seq<char> {
    match defined_name(g, e.source) {
        Some(x) => x,
        None => Seq::empty(),
    }
}

/// The names of the sources of `es`, each once, in order of first appearance.
pub open spec fn chain_names(g: &CodePropertyGraph, es: Seq<CpgEdge>) -> Seq<Seq<char>>
    decreases es.len(),
{
    if es.len() == 0 {
        Seq::empty()
    } else {
        let d = chain_names(g, es.drop_last());
        if d.contains(edge_name(g, es.last())) { d } else { d.push(edge_name(g, es.last())) }
    }
}

/// The edges of `es` whose source defines `x`, in order.
pub open spec fn edges_named(g: &CodePropertyGraph, es: Seq<CpgEdge>, x: Seq<char>) -> Seq<CpgEdge>
    decreases es.len(),
{
    if es.len() == 0 {
        Seq::empty()
    } else {
        edges_named(g, es.drop_last(), x) + if edge_name(g, es.last()) == x { seq![es.last()] } else { Seq::empty() }
    }
}

/// The sources of `es`, each once, in order of first appearance.
pub open spec fn first_sources(es: Seq<CpgEdge>) -> Seq<NodeId>
    decreases es.len(),
{
    if es.len() == 0 {
        Seq::empty()
    } else {
        let d = first_sources(es.drop_last());
        if d.contains(es.last().source) { d } else { d.push(es.last().source) }
    }
}

/// The targets of `es`, each once, in order of first appearance.
pub open spec fn first_targets(es: Seq<CpgEdge>) -> Seq<NodeId>
    decreases es.len(),
{
    if es.len() == 0 {
        Seq::empty()
    } else {
        let d = first_targets(es.drop_last());
        if d.contains(es.last().target) { d } else { d.push(es.last().target) }
    }
}

/// The targets of the edges of `es` from `d`, in order.
pub open spec fn targets_from(es: Seq<CpgEdge>, d: NodeId) -> Seq<NodeId>
    decreases es.len(),
{
    if es.len() == 0 {
        Seq::empty()
    } else {
        targets_from(es.drop_last(), d) + if es.last().source == d { seq![es.last().target] } else { Seq::empty() }
    }
}

/// The sources of the edges of `es` to `u`, in order.
pub open spec fn sources_to(es: Seq<CpgEdge>, u: NodeId) -> Seq<NodeId>
    decreases es.len(),
{
    if es.len() == 0 {
        Seq::empty()
    } else {
        sources_to(es.drop_last(), u) + if es.last().target == u { seq![es.last().source] } else { Seq::empty() }
    }
}

/// `ch` is the chain of variable `x` over the edges `es`: its definitions and
/// uses are the sources and targets of the edges naming `x`, each once in
/// order of first appearance, and it links each definition to the uses it
/// reaches, and each use to the definitions reaching it, in edge order.
pub open spec fn chain_of(ch: DefUseChain, g: &CodePropertyGraph, es: Seq<CpgEdge>, x: Seq<char>) -> bool {
    let named = edges_named(g, es, x);
    &&& ch.variable@ == x
    &&& ch.definitions@ == first_sources(named)
    &&& ch.uses@ == first_targets(named)
    &&& forall|k: NodeId| #[trigger] assoc(ch.def_to_uses@, k) == targets_from(named, k)
    &&& forall|k: NodeId| #[trigger] assoc(ch.use_to_defs@, k) == sources_to(named, k)
}

/// A name no edge of `es` carries has no edges.
proof fn lemma_unnamed(g: &CodePropertyGraph, es: Seq<CpgEdge>, x: Seq<char>)
    requires
        !chain_names(g, es).contains(x),
    ensures
        edges_named(g, es, x) == Seq::<CpgEdge>::empty(),
    decreases es.len(),
{
    if es.len() > 0 {
        let d = chain_names(g, es.drop_last());
        if d.contains(x) {
            let w = choose|w: int| 0 <= w < d.len() && d[w] == x;
            if !d.contains(edge_name(g, es.last())) {
                assert(chain_names(g, es)[w] == x);
            }
        }
        lemma_unnamed(g, es.drop_last(), x);
        if edge_name(g, es.last()) == x {
            if !d.contains(x) {
                assert(chain_names(g, es)[d.len() as int] == x);
            }
        }
        assert(edges_named(g, es, x) =~= Seq::<CpgEdge>::empty());
    }
}

/// A chain stays the chain of its name when an edge of another name comes.
proof fn lemma_chain_kept(ch: DefUseChain, g: &CodePropertyGraph, es: Seq<CpgEdge>, e: CpgEdge, y: Seq<char>)
    requires
        chain_of(ch, g, es, y),
        edge_name(g, e) != y,
    ensures
        chain_of(ch, g, es.push(e), y),
{
    assert(es.push(e).drop_last() =~= es);
    assert(edges_named(g, es.push(e), y) =~= edges_named(g, es, y));
}

/// Recording an edge of name `x` in the chain of `x` gives the chain of the
/// longer edge list.
proof fn lemma_chain_step(was: DefUseChain, now: DefUseChain, g: &CodePropertyGraph, es: Seq<CpgEdge>, e: CpgEdge, x: Seq<char>)
    requires
        chain_of(was, g, es, x),
        edge_name(g, e) == x,
        now.variable@ == was.variable@,
        now.definitions@ == if was.definitions@.contains(e.source) { was.definitions@ } else { was.definitions@.push(e.source) },
        now.uses@ == if was.uses@.contains(e.target) { was.uses@ } else { was.uses@.push(e.target) },
        assoc(now.def_to_uses@, e.source) == assoc(was.def_to_uses@, e.source).push(e.target),
        forall|k: NodeId| k != e.source ==> assoc(now.def_to_uses@, k) == assoc(was.def_to_uses@, k),
        assoc(now.use_to_defs@, e.target) == assoc(was.use_to_defs@, e.target).push(e.source),
        forall|k: NodeId| k != e.target ==> assoc(now.use_to_defs@, k) == assoc(was.use_to_defs@, k),
    ensures
        chain_of(now, g, es.push(e), x),
{
    let named = edges_named(g, es, x);
    assert(es.push(e).drop_last() =~= es);
    assert(edges_named(g, es.push(e), x) =~= named.push(e));
    assert(named.push(e).drop_last() =~= named);
    assert forall|k: NodeId| #[trigger] assoc(now.def_to_uses@, k) == targets_from(named.push(e), k) by {
        assert(assoc(was.def_to_uses@, k) == targets_from(named, k));
        if k == e.source {
            assert(targets_from(named.push(e), k) =~= targets_from(named, k).push(e.target));
        } else {
            assert(targets_from(named.push(e), k) =~= targets_from(named, k));
        }
    }
    assert forall|k: NodeId| #[trigger] assoc(now.use_to_defs@, k) == sources_to(named.push(e), k) by {
        assert(assoc(was.use_to_defs@, k) == sources_to(named, k));
        if k == e.target {
            assert(sources_to(named.push(e), k) =~= sources_to(named, k).push(e.source));
        } else {
            assert(sources_to(named.push(e), k) =~= sources_to(named, k));
        }
    }
}

/// The names of the chains are distinct.
proof fn lemma_names_distinct(g: &CodePropertyGraph, es: Seq<CpgEdge>)
    ensures
        forall|a: int, b: int| 0 <= a < b < chain_names(g, es).len() ==> chain_names(g, es)[a] != chain_names(g, es)[b],
    decreases es.len(),
{
    if es.len() > 0 {
        lemma_names_distinct(g, es.drop_last());
        let d = chain_names(g, es.drop_last());
        let x = edge_name(g, es.last());
        if !d.contains(x) {
            assert forall|a: int, b: int| 0 <= a < b < d.push(x).len() implies d.push(x)[a] != d.push(x)[b] by {
                if b == d.len() {
                    assert(d[a] != x);
                }
            }
        }
    }
}

/// The def-use chains of a function, one per variable, read from the graph's
/// def-use edges whose two ends lie in the function: each chain lists its
/// definitions and uses once each and links each definition to the uses it
/// reaches.
pub fn build_def_use_chains(cpg: &CodePropertyGraph, function: NodeId) -> (r: Vec<DefUseChain>)
    requires
        cpg.wf(),
    ensures
        forall|c: int, j: int| 0 <= c < r@.len() && 0 <= j < r@[c].definitions@.len() ==>
            defined_name(cpg, #[trigger] r@[c].definitions@[j]) == Some(r@[c].variable@),
        forall|a: int, b: int| 0 <= a < b < r@.len() ==> r@[a].variable@ != r@[b].variable@,
        r@.len() == chain_names(cpg, chain_edges(cpg, function, cpg.edges_view())).len(),
        forall|c: int| 0 <= c < r@.len() ==> chain_of(#[trigger] r@[c], cpg, chain_edges(cpg, function, cpg.edges_view()),
            chain_names(cpg, chain_edges(cpg, function, cpg.edges_view()))[c]),
{
    let mut chains: Vec<DefUseChain> = Vec::new();
    let edges = cpg.edges();
    let mut k: usize = 0;
    proof { assert(edges@.take(0) =~= Seq::<CpgEdge>::empty()); }
    while k < edges.len()
        invariant
            cpg.wf(),
            edges@ == cpg.edges_view(),
            k <= edges@.len(),
            forall|c: int, j: int| 0 <= c < chains@.len() && 0 <= j < chains@[c].definitions@.len() ==>
                defined_name(cpg, #[trigger] chains@[c].definitions@[j]) == Some(chains@[c].variable@),
            forall|a: int, b: int| 0 <= a < b < chains@.len() ==> chains@[a].variable@ != chains@[b].variable@,
            chains@.len() == chain_names(cpg, chain_edges(cpg, function, edges@.take(k as int))).len(),
            forall|c: int| 0 <= c < chains@.len() ==> chain_of(#[trigger] chains@[c], cpg,
                chain_edges(cpg, function, edges@.take(k as int)), chain_names(cpg, chain_edges(cpg, function, edges@.take(k as int)))[c]),
        decreases edges@.len() - k,
    {
        let e = edges[k];
        let ghost es = chain_edges(cpg, function, edges@.take(k as int));
        let ghost names = chain_names(cpg, es);
        proof {
            assert(edges@.take(k + 1).drop_last() =~= edges@.take(k as int));
            assert(edges@.take(k + 1).last() == e);
        }
        let mut recorded = false;
        if e.kind == CpgEdgeKind::DataFlow(DfgEdgeKind::DefUse)
            && in_function(cpg, e.source, function) && in_function(cpg, e.target, function) {
            if let Some(name) = name_defined_by(cpg, e.source) {
                recorded = true;
                proof {
                    assert(chain_edge(cpg, function, e));
                    assert(edge_name(cpg, e) == name@);
                    assert(chain_edges(cpg, function, edges@.take(k + 1)) =~= es.push(e));
                    assert(es.push(e).drop_last() =~= es);
                    lemma_names_distinct(cpg, es);
                }
                let c = find_chain(&chains, name.as_str());
                let ghost before = chains@;
                if c == chains.len() {
                    proof {
                        assert forall|q: int| 0 <= q < names.len() implies names[q] != name@ by {
                            assert(chain_of(before[q], cpg, es, names[q]));
                        }
                        lemma_unnamed(cpg, es, name@);
                    }
                    let fresh = DefUseChain::new(name.clone());
                    proof {
                        assert(fresh.definitions@ =~= first_sources(edges_named(cpg, es, name@)));
                        assert(fresh.uses@ =~= first_targets(edges_named(cpg, es, name@)));
                        assert forall|q: NodeId| #[trigger] assoc(fresh.def_to_uses@, q) == targets_from(edges_named(cpg, es, name@), q) by {
                            assert(assoc(fresh.def_to_uses@, q) =~= Seq::<NodeId>::empty());
                        }
                        assert forall|q: NodeId| #[trigger] assoc(fresh.use_to_defs@, q) == sources_to(edges_named(cpg, es, name@), q) by {
                            assert(assoc(fresh.use_to_defs@, q) =~= Seq::<NodeId>::empty());
                        }
                        assert(chain_of(fresh, cpg, es, name@));
                    }
                    chains.push(fresh);
                    proof {
                        assert forall|a: int, b: int| 0 <= a < b < chains@.len() implies chains@[a].variable@ != chains@[b].variable@ by {
                            if b == before.len() {
                                assert(chains@[a] == before[a]);
                            }
                        }
                    }
                } else {
                    proof { assert(chain_of(before[c as int], cpg, es, names[c as int])); }
                }
                let ghost names2 = chain_names(cpg, es.push(e));
                let ghost mid = chains@;
                proof {
                    assert forall|q: int| 0 <= q < mid.len() implies chain_of(#[trigger] mid[q], cpg, es, names2[q]) by {
                        if q < before.len() {
                            assert(mid[q] == before[q]);
                        }
                    }
                }
                let mut chain = DefUseChain::new(String::new());
                chains.set_and_swap(c, &mut chain);
                let ghost was = chain;
                chain.add_definition(e.source);
                chain.add_use(e.target);
                chain.link(e.source, e.target);
                let ghost now = chain;
                chains.set_and_swap(c, &mut chain);
                proof {
                    assert(was == mid[c as int]);
                    assert(was.variable@ == name@);
                    assert(names2[c as int] == name@);
                    lemma_chain_step(was, now, cpg, es, e, name@);
                    assert forall|q: int| 0 <= q < chains@.len() implies chain_of(#[trigger] chains@[q], cpg, es.push(e), names2[q]) by {
                        if q != c as int {
                            assert(chains@[q] == mid[q]);
                            assert(mid[q].variable@ == names2[q]);
                            assert(mid[q].variable@ != mid[c as int].variable@);
                            lemma_chain_kept(mid[q], cpg, es, e, names2[q]);
                        }
                    }
                    assert forall|q: int, j: int| 0 <= q < chains@.len() && 0 <= j < chains@[q].definitions@.len() implies
                        defined_name(cpg, #[trigger] chains@[q].definitions@[j]) == Some(chains@[q].variable@) by {
                        if q == c as int {
                            if j < was.definitions@.len() {
                                assert(chains@[q].definitions@[j] == was.definitions@[j]);
                            }
                        } else {
                            assert(chains@[q] == mid[q]);
                        }
                    }
                    assert forall|a: int, b: int| 0 <= a < b < chains@.len() implies chains@[a].variable@ != chains@[b].variable@ by {
                        assert(chains@[a].variable@ == mid[a].variable@);
                        assert(chains@[b].variable@ == mid[b].variable@);
                    }
                }
            }
        }
        proof {
            if !recorded {
                assert(!chain_edge(cpg, function, e));
                assert(chain_edges(cpg, function, edges@.take(k + 1)) =~= es);
            }
        }
        k = k + 1;
    }
    proof { assert(edges@.take(k as int) =~= edges@); }
    chains
}
} // verus!
