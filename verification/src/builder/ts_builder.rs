//! Building a graph from source: parse with tree-sitter, read the parse tree,
//! turn the kept syntax nodes into graph nodes joined by syntax-tree edges,
//! then add control and data flow.

use vstd::prelude::*;
use super::{CpgBuilder, CpgBuilderConfig, default_config};
use super::cfg::{default_cfg_config, CfgExtractor};
use super::cfg_rules::cfg_extracted;
use super::dfg::{default_dfg_config, DfgExtractor, dfg_grown, def_reaches_use, lemma_children_kept, lemma_dfg_children};
use super::dfg_rules::dfg_extracted;
use super::node_mapper::{NodeMapper, mapped_kind, node_included};
use super::parse::{grammar_error_text, new_parser, parse_text, read_fails, read_off, set_grammar, syntax_tree, ts_accepts, ts_parses, TsTree};
use super::parser_registry::{ParserRegistry, registered_languages};
use crate::error::Error;
use crate::graph::{
    CodePropertyGraph, CpgEdge, CpgEdgeKind, CpgNode, CpgNodeKind, Language, NodeId, SourceRange,
    function_ids, is_function_kind, language_name,
};
use crate::syntax::SyntaxTree;
use crate::text::{decimal, decimal_of};

verus! {

/// The languages the builder parses itself, in the order it lists them.
pub open spec fn builder_languages() -> Seq<Language> {
    seq![
        Language::Rust, Language::Python, Language::JavaScript, Language::TypeScript, Language::Go,
        Language::Java, Language::C, Language::Cpp, Language::Ruby, Language::Bash, Language::Json,
        Language::Yaml, Language::Toml, Language::Html, Language::Css, Language::Markdown,
    ]
}

/// The source range of syntax node `i` (byte offsets as `u32`).
pub open spec fn range_of(t: &SyntaxTree, i: int) -> SourceRange {
    SourceRange { start: t.node(i).start as u32, end: t.node(i).end as u32 }
}

/// Graph node `k` stands for the kept syntax node `i`: same mapped kind, same range.
pub open spec fn stands_for(g: &CodePropertyGraph, k: int, t: &SyntaxTree, i: int, lang: Language, inc: bool) -> bool {
    &&& t.has_node(i)
    &&& node_included(lang, t, i, inc)
    &&& g.nodes_view()[k].kind@ == mapped_kind(lang, t, i, t.node(i).kind)
    &&& g.nodes_view()[k].range == range_of(t, i)
}

/// Graph node `k` stands for some kept syntax node.
pub open spec fn has_origin(g: &CodePropertyGraph, k: int, t: &SyntaxTree, lang: Language, inc: bool) -> bool {
    exists|i: int| #[trigger] stands_for(g, k, t, i, lang, inc)
}

/// `g` is a syntax graph of `t`: every node stands for a kept syntax node, has
/// no recorded children, and has its parent before it joined to it by a
/// syntax-tree edge; every edge is such an edge; the recorded entry points are
/// exactly the function nodes and there are no exit points.
pub open spec fn ast_ok(g: &CodePropertyGraph, t: &SyntaxTree, lang: Language, inc: bool) -> bool {
    let n = g.nodes_view();
    &&& g.wf()
    &&& g.language_view() == lang
    &&& forall|k: int| 0 <= k < n.len() ==> #[trigger] has_origin(g, k, t, lang, inc)
    &&& forall|k: int| 0 <= k < n.len() ==> (#[trigger] n[k]).children@.len() == 0
    &&& forall|k: int| 0 <= k < n.len() && n[k].parent is Some ==> {
        let p = n[k].parent->0;
        &&& (p.0 as int) < k
        &&& g.has(CpgEdge { source: p, target: NodeId(k as u32), kind: CpgEdgeKind::AstChild })
    }
    &&& forall|j: int| 0 <= j < g.edges_view().len() ==> {
        let e = #[trigger] g.edges_view()[j];
        &&& e.kind == CpgEdgeKind::AstChild
        &&& n[e.target.0 as int].parent == Some(e.source)
    }
    &&& forall|k: int| 0 <= k < n.len() ==> (is_function_kind(#[trigger] n[k].kind) <==> g.entries_view().contains(NodeId(k as u32)))
    &&& forall|j: int| 0 <= j < g.entries_view().len() ==> (#[trigger] g.entries_view()[j]).0 < n.len()
    &&& g.exits_view().len() == 0
}

/// The graph nodes the builder creates for syntax node `n` and what it
/// encloses, after those of `acc`: a kept node gets the next id, its parent
/// in the graph being `parent` (the nearest kept ancestor); then its children
/// are visited in order. Each created node is recorded as the syntax node it
/// stands for and its parent in the graph.
pub open spec fn syntax_node(t: &SyntaxTree, lang: Language, inc: bool, n: int, parent: Option<NodeId>,
    acc: Seq<(int, Option<NodeId>)>) -> Seq<(int, Option<NodeId>)>
    decreases t.size() - n, 1int, 0int,
{
    if node_included(lang, t, n, inc) {
        syntax_kids(t, lang, inc, n, 0, Some(NodeId(acc.len() as u32)), acc.push((n, parent)))
    } else {
        syntax_kids(t, lang, inc, n, 0, parent, acc)
    }
}

/// The graph nodes created for the children of syntax node `n` from the
/// `j`-th on, under graph parent `parent`, after those of `acc`.
pub open spec fn syntax_kids(t: &SyntaxTree, lang: Language, inc: bool, n: int, j: int, parent: Option<NodeId>,
    acc: Seq<(int, Option<NodeId>)>) -> Seq<(int, Option<NodeId>)>
    decreases t.size() - n, 0int, t.node(n).children.len() - j,
{
    if j < 0 || j >= t.node(n).children.len() {
        acc
    } else {
        let c = t.node(n).children[j] as int;
        let next = if n < c < t.size() { syntax_node(t, lang, inc, c, parent, acc) } else { acc };
        syntax_kids(t, lang, inc, n, j + 1, parent, next)
    }
}

/// The graph nodes the builder creates for a syntax tree, in id order.
pub open spec fn syntax_plan(t: &SyntaxTree, lang: Language, inc: bool) -> Seq<(int, Option<NodeId>)> {
    if t.size() > 0 { syntax_node(t, lang, inc, 0, None, Seq::empty()) } else { Seq::empty() }
}

/// The syntax-tree edges of the created nodes, in creation order: each node
/// with a parent is joined to it.
pub open spec fn parent_edges(plan: Seq<(int, Option<NodeId>)>) -> Seq<CpgEdge>
    decreases plan.len(),
{
    if plan.len() == 0 {
        Seq::empty()
    } else {
        parent_edges(plan.drop_last()) + match plan.last().1 {
            Some(p) => seq![CpgEdge { source: p, target: NodeId((plan.len() - 1) as u32), kind: CpgEdgeKind::AstChild }],
            None => Seq::empty(),
        }
    }
}

/// `g` is the syntax graph `plan` describes: node `k` stands for syntax node
/// `plan[k].0` under graph parent `plan[k].1`, the edges join each node to its
/// parent in creation order, and the entry points are the functions in id order.
pub open spec fn made_of(g: &CodePropertyGraph, plan: Seq<(int, Option<NodeId>)>, t: &SyntaxTree, lang: Language, inc: bool) -> bool {
    &&& g.nodes_view().len() == plan.len()
    &&& forall|k: int| 0 <= k < plan.len() ==> stands_for(g, k, t, (#[trigger] plan[k]).0, lang, inc)
        && g.nodes_view()[k].parent == plan[k].1
    &&& g.edges_view() == parent_edges(plan)
    &&& g.entries_view() == function_ids(g.nodes_view(), plan.len() as int)
}

/// Visiting more syntax nodes never removes a created node.
proof fn lemma_syntax_node_grows(t: &SyntaxTree, lang: Language, inc: bool, n: int, parent: Option<NodeId>,
    acc: Seq<(int, Option<NodeId>)>)
    ensures
        syntax_node(t, lang, inc, n, parent, acc).len() >= acc.len(),
    decreases t.size() - n, 1int, 0int,
{
    if node_included(lang, t, n, inc) {
        lemma_syntax_kids_grow(t, lang, inc, n, 0, Some(NodeId(acc.len() as u32)), acc.push((n, parent)));
    } else {
        lemma_syntax_kids_grow(t, lang, inc, n, 0, parent, acc);
    }
}

/// Visiting more syntax nodes never removes a created node.
proof fn lemma_syntax_kids_grow(t: &SyntaxTree, lang: Language, inc: bool, n: int, j: int, parent: Option<NodeId>,
    acc: Seq<(int, Option<NodeId>)>)
    ensures
        syntax_kids(t, lang, inc, n, j, parent, acc).len() >= acc.len(),
    decreases t.size() - n, 0int, t.node(n).children.len() - j,
{
    if !(j < 0 || j >= t.node(n).children.len()) {
        let c = t.node(n).children[j] as int;
        if n < c < t.size() {
            lemma_syntax_node_grows(t, lang, inc, c, parent, acc);
            lemma_syntax_kids_grow(t, lang, inc, n, j + 1, parent, syntax_node(t, lang, inc, c, parent, acc));
        } else {
            lemma_syntax_kids_grow(t, lang, inc, n, j + 1, parent, acc);
        }
    }
}

/// The function nodes among the first `m` nodes depend on those nodes only.
proof fn lemma_function_ids_prefix(a: Seq<CpgNode>, b: Seq<CpgNode>, m: int)
    requires
        0 <= m <= a.len(),
        m <= b.len(),
        forall|i: int| 0 <= i < m ==> a[i] == b[i],
    ensures
        function_ids(a, m) == function_ids(b, m),
    decreases m,
{
    if m > 0 {
        lemma_function_ids_prefix(a, b, m - 1);
    }
}

/// `new` is `old` with nodes and edges appended and nothing else changed.
pub open spec fn grown(new: &CodePropertyGraph, old: &CodePropertyGraph) -> bool {
    &&& new.nodes_view().len() >= old.nodes_view().len()
    &&& new.nodes_view().subrange(0, old.nodes_view().len() as int) == old.nodes_view()
    &&& new.edges_view().len() >= old.edges_view().len()
    &&& new.edges_view().subrange(0, old.edges_view().len() as int) == old.edges_view()
    &&& new.language_view() == old.language_view()
    &&& new.source_code_view() == old.source_code_view()
    &&& new.source_path_view() == old.source_path_view()
}

/// `g` is the syntax graph `g0` with flow edges added: control-flow edges only
/// when control flow is on, data-flow edges only when data flow is on, and
/// every def-use edge joining a definition to a use of the name it defines.
pub open spec fn flows_added(g: &CodePropertyGraph, g0: &CodePropertyGraph, cfg: CpgBuilderConfig) -> bool {
    &&& g.wf()
    &&& g.nodes_view() == g0.nodes_view()
    &&& g.edges_view().len() >= g0.edges_view().len()
    &&& g.edges_view().subrange(0, g0.edges_view().len() as int) == g0.edges_view()
    &&& forall|j: int| g0.edges_view().len() <= j < g.edges_view().len() ==> {
        let k = (#[trigger] g.edges_view()[j]).kind;
        (cfg.build_cfg && k.spec_is_cfg()) || (cfg.build_dfg && k.spec_is_dfg())
    }
    &&& forall|j: int| 0 <= j < g.edges_view().len() && (#[trigger] g.edges_view()[j]).kind == CpgEdgeKind::DataFlow(crate::graph::DfgEdgeKind::DefUse)
        ==> def_reaches_use(g, g.edges_view()[j].source, g.edges_view()[j].target)
    &&& g.language_view() == g0.language_view()
    &&& g.source_code_view() == g0.source_code_view()
    &&& g.source_path_view() == g0.source_path_view()
}

/// The passes the options ask for, run in turn on the syntax graph `g0`,
/// give `g`: the control-flow pass (with all its options on) gives `g1`, and
/// the data-flow pass (with its default options) gives `g`; a pass the
/// options leave out changes nothing.
pub open spec fn passes_ran(g0: &CodePropertyGraph, g1: &CodePropertyGraph, g: &CodePropertyGraph, cfg: CpgBuilderConfig) -> bool {
    &&& if cfg.build_cfg {
        cfg_extracted(default_cfg_config(), g0, g1)
    } else {
        g1.nodes_view() == g0.nodes_view() && g1.edges_view() == g0.edges_view()
    }
    &&& if cfg.build_dfg {
        dfg_extracted(default_dfg_config(), g1, g)
    } else {
        g.nodes_view() == g1.nodes_view() && g.edges_view() == g1.edges_view()
    }
}

/// What the builder makes of a syntax tree: its syntax graph, with exactly
/// the control and data flow of the passes the options ask for, and the
/// source text kept exactly when the options say so.
pub open spec fn built(g: &CodePropertyGraph, t: &SyntaxTree, lang: Language, cfg: CpgBuilderConfig) -> bool {
    &&& exists|g0: CodePropertyGraph| #[trigger] ast_ok(&g0, t, lang, cfg.include_comments) && flows_added(g, &g0, cfg)
        && made_of(&g0, syntax_plan(t, lang, cfg.include_comments), t, lang, cfg.include_comments)
        && exists|g1: CodePropertyGraph| #[trigger] passes_ran(&g0, &g1, g, cfg)
    &&& g.source_code_view() == if cfg.retain_source { Some(t.source_view()) } else { None }
    &&& g.source_path_view() is None
}

/// The message of a source over the size limit.
pub open spec fn too_large_message(limit: usize) -> Seq<char> {
    "Source file exceeds maximum size of "@ + decimal_of(limit) + " bytes"@
}

/// Why a build of `source` as a registered `language`, within the size
/// limit, is refused: tree-sitter does not accept the language's grammar or
/// gives no tree for the text; a node of the parse has a span that does not
/// fit the text, or the parse is too large to index; or the syntax graph of
/// the tree read off the parse would have more nodes than node ids can number.
pub open spec fn build_refused(language: Language, source: Seq<char>, include_comments: bool) -> bool {
    ||| !ts_accepts(language)
    ||| !ts_parses(language, source)
    ||| read_fails(language, source, source)
    ||| exists|t: SyntaxTree, paths: Seq<Seq<u32>>| t.wf() && t.source_view() == source
        && #[trigger] read_off(t, language, source, paths) && syntax_plan(&t, language, include_comments).len() > 4294967294
}

/// Builds graphs from source through tree-sitter.
#[derive(Clone, Copy, Debug)]
pub struct TreeSitterCpgBuilder {
    config: CpgBuilderConfig,
}

impl Default for TreeSitterCpgBuilder {
    fn default() -> (r: Self)
        ensures
            r.config_view() == default_config(),
    {
        Self::new()
    }
}

impl CpgBuilder for TreeSitterCpgBuilder {
    open spec fn languages_view(&self) -> Seq<Language> {
        builder_languages()
    }

    /// Parses `source` as `language` and builds its graph ([`TreeSitterCpgBuilder::build`]).
    fn build(&self, source: &str, language: Language) -> (r: Result<CodePropertyGraph, Error>)
        ensures
            crate::syntax::bytes_of(source@).len() > self.config_view().max_file_size ==>
                (r matches Err(Error::Construction(m)) && m@ == too_large_message(self.config_view().max_file_size)),
            crate::syntax::bytes_of(source@).len() <= self.config_view().max_file_size
                && !registered_languages().contains(language) ==>
                (r matches Err(Error::UnsupportedLanguage(name)) && name@ == language_name(language)),
            crate::syntax::bytes_of(source@).len() <= self.config_view().max_file_size
                && registered_languages().contains(language) ==> (r is Ok || (r matches Err(Error::Construction(_))
                    && build_refused(language, source@, self.config_view().include_comments))),
            r matches Ok(g) ==> exists|t: SyntaxTree, paths: Seq<Seq<u32>>|
                t.wf() && t.source_view() == source@ && read_off(t, language, source@, paths)
                    && built(&g, &t, language, self.config_view()),
    {
        TreeSitterCpgBuilder::build(self, source, language)
    }

    fn supported_languages(&self) -> (r: Vec<Language>) {
        TreeSitterCpgBuilder::supported_languages(self)
    }
}

impl TreeSitterCpgBuilder {
    /// The options in use.
    pub closed spec fn config_view(&self) -> CpgBuilderConfig {
        self.config
    }

    /// A builder with the default options.
    pub fn new() -> (r: Self)
        ensures
            r.config_view() == default_config(),
    {
        TreeSitterCpgBuilder { config: CpgBuilderConfig::default() }
    }

    /// A builder with the given options.
    pub fn with_config(config: CpgBuilderConfig) -> (r: Self)
        ensures
            r.config_view() == config,
    {
        TreeSitterCpgBuilder { config }
    }

    /// The options in use.
    pub fn config(&self) -> (r: &CpgBuilderConfig)
        ensures
            *r == self.config_view(),
    {
        &self.config
    }

    /// Replaces the options.
    pub fn set_config(&mut self, config: CpgBuilderConfig)
        ensures
            final(self).config_view() == config,
    {
        self.config = config;
    }

    /// The languages the builder parses itself.
    pub fn supported_languages(&self) -> (r: Vec<Language>)
        ensures
            r@ == builder_languages(),
    {
        let r = vec![
            Language::Rust, Language::Python, Language::JavaScript, Language::TypeScript, Language::Go,
            Language::Java, Language::C, Language::Cpp, Language::Ruby, Language::Bash, Language::Json,
            Language::Yaml, Language::Toml, Language::Html, Language::Css, Language::Markdown,
        ];
        proof { assert(r@ =~= builder_languages()); }
        r
    }

    /// Whether the builder parses `language` itself.
    pub fn supports_language(&self, language: Language) -> (r: bool)
        ensures
            r == builder_languages().contains(language),
    {
        let langs = self.supported_languages();
        let mut i: usize = 0;
        while i < langs.len()
            invariant
                langs@ == builder_languages(),
                i <= langs@.len(),
                forall|k: int| 0 <= k < i ==> langs@[k] != language,
            decreases langs@.len() - i,
        {
            if langs[i] == language {
                assert(langs@[i as int] == language);
                return true;
            }
            i = i + 1;
        }
        false
    }

    /// Parses `source` with the grammar registered for `language`.
    ///
    /// Refused with `UnsupportedLanguage` (carrying the language's name) when
    /// no grammar is registered for the language, and with `Construction` when
    /// tree-sitter does not accept the grammar; otherwise the parse tree of
    /// `source` as `language`.
    pub fn parse_source(&self, source: &str, language: Language) -> (r: Result<TsTree, Error>)
        ensures
            !registered_languages().contains(language) ==>
                (r matches Err(Error::UnsupportedLanguage(name)) && name@ == language_name(language)),
            registered_languages().contains(language) ==>
                (r is Ok <==> ts_accepts(language) && ts_parses(language, source@)),
            registered_languages().contains(language) ==> (r is Ok || r matches Err(Error::Construction(_))),
            r matches Ok(t) ==> t.lang() == language && t.text() == source@,
    {
        let registry = ParserRegistry::global();
        let grammar = match registry.get(language) {
            Some(g) => g,
            None => return Err(Error::UnsupportedLanguage(language.name().to_owned())),
        };
        let mut parser = new_parser();
        if let Err(e) = set_grammar(&mut parser, &grammar) {
            let mut m = "Failed to set parser language: ".to_owned();
            m.append(grammar_error_text(&e).as_str());
            return Err(Error::Construction(m));
        }
        match parse_text(&mut parser, source) {
            Some(t) => Ok(t),
            None => Err(Error::Construction("Failed to parse source code".to_owned())),
        }
    }

    /// Parses `source` as `language` and builds its graph.
    ///
    /// Refused with `Construction` when the source is longer than the size
    /// limit, and with `UnsupportedLanguage` (carrying the language's name) when
    /// no grammar is registered for the language; otherwise the graph is what
    /// [`Self::build_from_tree`] makes of the tree read off the parse of
    /// `source` ([`syntax_tree`]).
    pub fn build(&self, source: &str, language: Language) -> (r: Result<CodePropertyGraph, Error>)
        ensures
            crate::syntax::bytes_of(source@).len() > self.config_view().max_file_size ==>
                (r matches Err(Error::Construction(m)) && m@ == too_large_message(self.config_view().max_file_size)),
            crate::syntax::bytes_of(source@).len() <= self.config_view().max_file_size
                && !registered_languages().contains(language) ==>
                (r matches Err(Error::UnsupportedLanguage(name)) && name@ == language_name(language)),
            crate::syntax::bytes_of(source@).len() <= self.config_view().max_file_size
                && registered_languages().contains(language) ==> (r is Ok || (r matches Err(Error::Construction(_))
                    && build_refused(language, source@, self.config_view().include_comments))),
            r matches Ok(g) ==> exists|t: SyntaxTree, paths: Seq<Seq<u32>>|
                t.wf() && t.source_view() == source@ && read_off(t, language, source@, paths)
                    && built(&g, &t, language, self.config_view()),
    {
        if source.as_bytes().len() > self.config.max_file_size {
            let mut m = "Source file exceeds maximum size of ".to_owned();
            m.append(decimal(self.config.max_file_size).as_str());
            m.append(" bytes");
            return Err(Error::Construction(m));
        }
        let tree = self.parse_source(source, language)?;
        let st = match syntax_tree(&tree, source) {
            Some(t) => t,
            None => return Err(Error::Construction("Parse tree does not match the source".to_owned())),
        };
        self.build_from_tree(&st, language)
    }

    /// Builds the graph of an already parsed tree of `language`: its syntax
    /// graph (the kept syntax nodes in pre-order, each joined to its nearest
    /// kept ancestor), then control and data flow as the options ask. Refused
    /// with `Construction` exactly when the syntax graph would have more nodes
    /// than node ids can number.
    pub fn build_from_tree(&self, tree: &SyntaxTree, language: Language) -> (r: Result<CodePropertyGraph, Error>)
        requires
            tree.wf(),
        ensures
            r matches Ok(g) ==> built(&g, tree, language, self.config_view()),
            r matches Err(e) ==> e is Construction,
            r is Ok <==> syntax_plan(tree, language, self.config_view().include_comments).len() <= 4294967294,
    {
        let mut cpg = CodePropertyGraph::new(language);
        if self.config.retain_source {
            cpg = cpg.with_source_code(tree.source());
        }
        let mapper = NodeMapper::new(language);
        proof {
            assert(cpg.edges_view() =~= parent_edges(Seq::empty()));
            assert(cpg.entries_view() =~= function_ids(cpg.nodes_view(), 0));
            assert(made_of(&cpg, Seq::empty(), tree, language, self.config.include_comments));
        }
        if tree.len() > 0 {
            self.convert_node(tree, 0, None, &mapper, &mut cpg, Ghost(Seq::empty()))?;
        }
        let ghost g0 = cpg;
        if self.config.build_cfg {
            CfgExtractor::new().extract(&mut cpg);
        }
        let ghost g1 = cpg;
        if self.config.build_dfg {
            DfgExtractor::new().extract(&mut cpg);
        }
        proof {
            if !self.config.build_cfg {
                assert(g1.edges_view().subrange(0, g0.edges_view().len() as int) =~= g0.edges_view());
            }
            if !self.config.build_dfg {
                assert(cpg.edges_view().subrange(0, g1.edges_view().len() as int) =~= g1.edges_view());
            }
            lemma_flows(&g0, &g1, &cpg, self.config, tree, language);
            assert(passes_ran(&g0, &g1, &cpg, self.config));
            assert(made_of(&g0, syntax_plan(tree, language, self.config.include_comments), tree, language, self.config.include_comments));
            assert(ast_ok(&g0, tree, language, self.config.include_comments));
        }
        Ok(cpg)
    }

    /// Adds the graph node for kept syntax node `n` under `parent`.
    #[verifier::rlimit(40)]
    fn add_syntax_node(&self, tree: &SyntaxTree, n: usize, parent: Option<NodeId>, mapper: &NodeMapper, cpg: &mut CodePropertyGraph,
        Ghost(acc): Ghost<Seq<(int, Option<NodeId>)>>) -> (r: Result<NodeId, Error>)
        requires
            tree.wf(),
            tree.has_node(n as int),
            node_included(mapper.language_view(), tree, n as int, self.config_view().include_comments),
            ast_ok(old(cpg), tree, mapper.language_view(), self.config_view().include_comments),
            made_of(old(cpg), acc, tree, mapper.language_view(), self.config_view().include_comments),
            parent matches Some(p) ==> old(cpg).valid(p),
        ensures
            ast_ok(final(cpg), tree, mapper.language_view(), self.config_view().include_comments),
            grown(final(cpg), old(cpg)),
            r matches Ok(id) ==> final(cpg).valid(id) && id == NodeId(acc.len() as u32)
                && made_of(final(cpg), acc.push((n as int, parent)), tree, mapper.language_view(), self.config_view().include_comments)
                && final(cpg).nodes_view().len() <= 4294967294,
            r matches Err(e) ==> e is Construction && acc.len() >= 4294967294,
    {
        let ghost lang = mapper.language_view();
        let ghost inc = self.config.include_comments;
        if cpg.node_count() >= 4294967294usize {
            proof { lemma_grown_refl(cpg); }
            return Err(Error::Construction("Too many nodes for one graph".to_owned()));
        }
        let kind = mapper.map_kind(tree.kind(n), tree, n);
        let is_fn = match &kind {
            CpgNodeKind::Function { .. } => true,
            _ => false,
        };
        let range = SourceRange::from_bytes(#[verifier::truncate] (tree.start_byte(n) as u32), #[verifier::truncate] (tree.end_byte(n) as u32));
        let mut node = CpgNode::new(NodeId::new(0), kind, range);
        node.parent = parent;
        let ghost g0 = *cpg;
        let id = cpg.add_node(node);
        let ghost g1 = *cpg;
        proof {
            assert(stands_for(&g1, id.0 as int, tree, n as int, lang, inc));
        }
        if let Some(p) = parent {
            cpg.connect(p, id, CpgEdgeKind::AstChild);
        }
        let ghost g2 = *cpg;
        if is_fn {
            cpg.add_cfg_entry(id);
        }
        proof {
            if is_fn {
                if !g2.entries_view().contains(id) {
                    assert(cpg.entries_view()[cpg.entries_view().len() - 1] == id);
                }
                assert(cpg.entries_view().contains(id));
            }
            let k = id.0 as int;
            let nn = cpg.nodes_view();
            assert(nn == g1.nodes_view());
            assert forall|q: int| 0 <= q < nn.len() implies #[trigger] has_origin(cpg, q, tree, lang, inc) by {
                if q < k {
                    assert(has_origin(&g0, q, tree, lang, inc));
                    let i = choose|i: int| stands_for(&g0, q, tree, i, lang, inc);
                    assert(stands_for(cpg, q, tree, i, lang, inc));
                } else {
                    assert(stands_for(cpg, q, tree, n as int, lang, inc));
                }
            }
            assert forall|q: int| 0 <= q < nn.len() && nn[q].parent is Some implies {
                let p = nn[q].parent->0;
                &&& (p.0 as int) < q
                &&& cpg.has(CpgEdge { source: p, target: NodeId(q as u32), kind: CpgEdgeKind::AstChild })
            } by {
                let p = nn[q].parent->0;
                if q < k {
                    assert(g0.nodes_view()[q] == nn[q]);
                    assert(g0.has(CpgEdge { source: p, target: NodeId(q as u32), kind: CpgEdgeKind::AstChild }));
                    let w = choose|w: int| 0 <= w < g0.edges_view().len() && g0.edges_view()[w] == CpgEdge { source: p, target: NodeId(q as u32), kind: CpgEdgeKind::AstChild };
                    assert(cpg.edges_view()[w] == g0.edges_view()[w]);
                } else {
                    let w = g0.edges_view().len() as int;
                    assert(cpg.edges_view()[w] == CpgEdge { source: p, target: NodeId(q as u32), kind: CpgEdgeKind::AstChild });
                }
            }
            assert forall|j: int| 0 <= j < cpg.edges_view().len() implies {
                let e = #[trigger] cpg.edges_view()[j];
                &&& e.kind == CpgEdgeKind::AstChild
                &&& nn[e.target.0 as int].parent == Some(e.source)
            } by {
                if j < g0.edges_view().len() {
                    assert(cpg.edges_view()[j] == g0.edges_view()[j]);
                    let e = g0.edges_view()[j];
                    assert(g0.valid(e.target));
                    assert(nn[e.target.0 as int] == g0.nodes_view()[e.target.0 as int]);
                }
            }
            assert forall|q: int| 0 <= q < nn.len() implies (is_function_kind(#[trigger] nn[q].kind) <==> cpg.entries_view().contains(NodeId(q as u32))) by {
                if q < k {
                    assert(nn[q] == g0.nodes_view()[q]);
                    if cpg.entries_view().contains(NodeId(q as u32)) && !g0.entries_view().contains(NodeId(q as u32)) {
                        let w = choose|w: int| 0 <= w < cpg.entries_view().len() && cpg.entries_view()[w] == NodeId(q as u32);
                        if w < g0.entries_view().len() {
                            assert(cpg.entries_view()[w] == g0.entries_view()[w]);
                        }
                        assert(NodeId(q as u32) == id);
                    }
                    if g0.entries_view().contains(NodeId(q as u32)) {
                        let w = choose|w: int| 0 <= w < g0.entries_view().len() && g0.entries_view()[w] == NodeId(q as u32);
                        assert(cpg.entries_view()[w] == g0.entries_view()[w]);
                    }
                } else {
                    if !is_fn {
                        assert(cpg.entries_view() == g0.entries_view());
                        assert(!is_function_kind(nn[q].kind));
                        if g0.entries_view().contains(NodeId(q as u32)) {
                            let w = choose|w: int| 0 <= w < g0.entries_view().len() && g0.entries_view()[w] == NodeId(q as u32);
                            assert(g0.entries_view()[w].0 < g0.nodes_view().len());
                        }
                    } else {
                        assert(is_function_kind(nn[q].kind));
                    }
                }
            }
            assert(cpg.nodes_view().subrange(0, g0.nodes_view().len() as int) =~= g0.nodes_view());
            assert(cpg.edges_view().subrange(0, g0.edges_view().len() as int) =~= g0.edges_view());
            let plan = acc.push((n as int, parent));
            assert(plan.drop_last() =~= acc);
            assert forall|q: int| 0 <= q < plan.len() implies stands_for(cpg, q, tree, (#[trigger] plan[q]).0, lang, inc)
                && cpg.nodes_view()[q].parent == plan[q].1 by {
                if q < k {
                    assert(plan[q] == acc[q]);
                    assert(stands_for(&g0, q, tree, acc[q].0, lang, inc));
                    assert(nn[q] == g0.nodes_view()[q]);
                }
            }
            assert(cpg.edges_view() =~= parent_edges(plan));
            lemma_function_ids_prefix(nn, g0.nodes_view(), k);
            if !is_fn {
                assert(cpg.entries_view() =~= function_ids(nn, plan.len() as int));
            } else {
                if g0.entries_view().contains(id) {
                    let w = choose|w: int| 0 <= w < g0.entries_view().len() && g0.entries_view()[w] == id;
                    assert(g0.entries_view()[w].0 < g0.nodes_view().len());
                }
                assert(cpg.entries_view() =~= function_ids(nn, plan.len() as int));
            }
        }
        Ok(id)
    }

    /// Adds syntax node `n` (when kept) under `parent`, then its children.
    fn convert_node(&self, tree: &SyntaxTree, n: usize, parent: Option<NodeId>, mapper: &NodeMapper, cpg: &mut CodePropertyGraph,
        Ghost(acc): Ghost<Seq<(int, Option<NodeId>)>>) -> (r: Result<(), Error>)
        requires
            tree.wf(),
            tree.has_node(n as int),
            ast_ok(old(cpg), tree, mapper.language_view(), self.config_view().include_comments),
            made_of(old(cpg), acc, tree, mapper.language_view(), self.config_view().include_comments),
            old(cpg).nodes_view().len() <= 4294967294,
            parent matches Some(p) ==> old(cpg).valid(p),
        ensures
            ast_ok(final(cpg), tree, mapper.language_view(), self.config_view().include_comments),
            grown(final(cpg), old(cpg)),
            r is Ok ==> made_of(final(cpg),
                syntax_node(tree, mapper.language_view(), self.config_view().include_comments, n as int, parent, acc),
                tree, mapper.language_view(), self.config_view().include_comments)
                && final(cpg).nodes_view().len() <= 4294967294,
            r matches Err(e) ==> e is Construction
                && syntax_node(tree, mapper.language_view(), self.config_view().include_comments, n as int, parent, acc).len() > 4294967294,
        decreases tree.size() - n,
    {
        let ghost lang = mapper.language_view();
        let ghost inc = self.config_view().include_comments;
        proof { assert(tree.node_ok(n as int)); }
        let ghost mut cur = acc;
        let this = if !mapper.should_include_node(tree, n, self.config.include_comments) {
            proof { lemma_grown_refl(cpg); }
            parent
        } else {
            match self.add_syntax_node(tree, n, parent, mapper, cpg, Ghost(acc)) {
                Ok(id) => {
                    proof { cur = acc.push((n as int, parent)); }
                    Some(id)
                },
                Err(e) => {
                    proof {
                        lemma_syntax_kids_grow(tree, lang, inc, n as int, 0, Some(NodeId(acc.len() as u32)), acc.push((n as int, parent)));
                    }
                    return Err(e);
                },
            }
        };
        let ghost mid = *cpg;
        let cs = tree.children(n);
        let mut j: usize = 0;
        while j < cs.len()
            invariant
                tree.wf(),
                tree.node_ok(n as int),
                cs@ == tree.node(n as int).children,
                j <= cs@.len(),
                lang == mapper.language_view(),
                inc == self.config_view().include_comments,
                ast_ok(cpg, tree, mapper.language_view(), self.config_view().include_comments),
                grown(cpg, old(cpg)),
                this matches Some(p) ==> cpg.valid(p),
                made_of(cpg, cur, tree, lang, inc),
                cpg.nodes_view().len() <= 4294967294,
                syntax_node(tree, lang, inc, n as int, parent, acc) == syntax_kids(tree, lang, inc, n as int, j as int, this, cur),
            decreases cs@.len() - j,
        {
            let c = cs[j];
            let ghost before = *cpg;
            proof { assert(tree.node(n as int).children[j as int] as int == c as int); }
            let step = self.convert_node(tree, c, this, mapper, cpg, Ghost(cur));
            proof { lemma_grown_trans(old(cpg), &before, cpg); }
            match step {
                Ok(()) => {
                    proof { cur = syntax_node(tree, lang, inc, c as int, this, cur); }
                },
                Err(e) => {
                    proof {
                        lemma_syntax_kids_grow(tree, lang, inc, n as int, j + 1, this, syntax_node(tree, lang, inc, c as int, this, cur));
                    }
                    return Err(e);
                },
            }
            j = j + 1;
        }
        Ok(())
    }
}

/// Control flow then data flow added to a syntax graph give `flows_added`.
proof fn lemma_flows(g0: &CodePropertyGraph, g1: &CodePropertyGraph, g2: &CodePropertyGraph, cfg: CpgBuilderConfig,
    t: &SyntaxTree, lang: Language)
    requires
        ast_ok(g0, t, lang, cfg.include_comments),
        g1.wf(),
        g1.nodes_view() == g0.nodes_view(),
        g1.edges_view().len() >= g0.edges_view().len(),
        g1.edges_view().subrange(0, g0.edges_view().len() as int) == g0.edges_view(),
        forall|j: int| g0.edges_view().len() <= j < g1.edges_view().len() ==> cfg.build_cfg && (#[trigger] g1.edges_view()[j]).kind.spec_is_cfg(),
        g1.language_view() == g0.language_view(),
        g1.source_code_view() == g0.source_code_view(),
        g1.source_path_view() == g0.source_path_view(),
        cfg.build_dfg ==> dfg_grown(g2, g1),
        !cfg.build_dfg ==> g2 == g1,
    ensures
        flows_added(g2, g0, cfg),
{
    assert forall|j: int| g0.edges_view().len() <= j < g1.edges_view().len() implies (#[trigger] g1.edges_view()[j]).kind != CpgEdgeKind::AstChild by {
        assert(g1.edges_view()[j].kind.spec_is_cfg());
    }
    assert(g2.edges_view().subrange(0, g0.edges_view().len() as int)
        =~= g2.edges_view().subrange(0, g1.edges_view().len() as int).subrange(0, g0.edges_view().len() as int));
    assert forall|j: int| g0.edges_view().len() <= j < g2.edges_view().len() implies {
        let k = (#[trigger] g2.edges_view()[j]).kind;
        (cfg.build_cfg && k.spec_is_cfg()) || (cfg.build_dfg && k.spec_is_dfg())
    } by {
        if j < g1.edges_view().len() {
            assert(g2.edges_view()[j] == g2.edges_view().subrange(0, g1.edges_view().len() as int)[j]);
        }
    }
    assert forall|j: int| g0.edges_view().len() <= j < g2.edges_view().len() implies (#[trigger] g2.edges_view()[j]).kind != CpgEdgeKind::AstChild by {
        if j < g1.edges_view().len() {
            assert(g2.edges_view()[j] == g2.edges_view().subrange(0, g1.edges_view().len() as int)[j]);
        } else {
            assert(g2.edges_view()[j].kind.spec_is_dfg());
        }
    }
    assert forall|j: int| 0 <= j < g2.edges_view().len() && (#[trigger] g2.edges_view()[j]).kind == CpgEdgeKind::DataFlow(crate::graph::DfgEdgeKind::DefUse)
        implies def_reaches_use(g2, g2.edges_view()[j].source, g2.edges_view()[j].target) by {
        let e = g2.edges_view()[j];
        if j < g0.edges_view().len() {
            assert(g2.edges_view()[j] == g0.edges_view()[j]);
            assert(e.kind == CpgEdgeKind::AstChild);
        } else if j < g1.edges_view().len() {
            assert(g2.edges_view()[j] == g1.edges_view()[j]);
            assert(g1.edges_view()[j].kind.spec_is_cfg());
        } else {
            lemma_children_kept(g1, g2, e.source);
        }
    }
}

/// A graph has grown from itself.
proof fn lemma_grown_refl(g: &CodePropertyGraph)
    ensures
        grown(g, g),
{
    assert(g.nodes_view().subrange(0, g.nodes_view().len() as int) =~= g.nodes_view());
    assert(g.edges_view().subrange(0, g.edges_view().len() as int) =~= g.edges_view());
}

/// Growth is transitive.
proof fn lemma_grown_trans(a: &CodePropertyGraph, b: &CodePropertyGraph, c: &CodePropertyGraph)
    requires
        grown(b, a),
        grown(c, b),
    ensures
        grown(c, a),
{
    assert(c.nodes_view().subrange(0, a.nodes_view().len() as int)
        =~= c.nodes_view().subrange(0, b.nodes_view().len() as int).subrange(0, a.nodes_view().len() as int));
    assert(c.edges_view().subrange(0, a.edges_view().len() as int)
        =~= c.edges_view().subrange(0, b.edges_view().len() as int).subrange(0, a.edges_view().len() as int));
}

} // verus!
