use libcpg::builder::dfg::{
    build_def_use_chains, DefUseChain, DefUseCollector, Definition, DefinitionKind, DfgExtractor, DfgExtractorConfig, Use,
    UseKind,
};
use libcpg::builder::ts_builder::TreeSitterCpgBuilder;
use libcpg::graph::{
    CodePropertyGraph, CpgEdgeKind, CpgNode, CpgNodeKind, DfgEdgeKind, Language, MethodSignature, NodeId, ScopeId,
    SourceRange, Visibility,
};

fn create_test_function(cpg: &mut CodePropertyGraph) -> NodeId {
    let func = mk_function(cpg, "test");
    let body = cpg.add_node(CpgNode::new(NodeId::new(0), CpgNodeKind::Block { scope: ScopeId::global() }, SourceRange::default()));
    cpg.connect_unique(func, body, CpgEdgeKind::AstChild);
    cpg.set_parent(body, Some(func));
    func
}

fn dfg_child(cpg: &mut CodePropertyGraph, parent: NodeId, kind: CpgNodeKind) -> NodeId {
    let id = cpg.add_node(CpgNode::new(NodeId::new(0), kind, SourceRange::default()));
    cpg.connect(parent, id, CpgEdgeKind::AstChild);
    cpg.set_parent(id, Some(parent));
    cpg.push_child(parent, id);
    id
}

fn mk_function(cpg: &mut CodePropertyGraph, name: &str) -> NodeId {
    cpg.add_node(CpgNode::new(
        NodeId::new(0),
        CpgNodeKind::Function {
            signature: MethodSignature {
                name: name.into(),
                params: Default::default(),
                return_type: None,
                is_static: false,
                is_async: false,
                visibility: Visibility::Public,
            },
        },
        SourceRange::default(),
    ))
}

fn dfg_ident(name: &str) -> CpgNodeKind {
    CpgNodeKind::Identifier { name: name.into(), definition: None }
}

fn variable(name: &str) -> CpgNodeKind {
    CpgNodeKind::Variable { name: name.into(), var_type: None, scope: ScopeId::global(), is_mutable: true }
}

fn build_rust(src: &str) -> CodePropertyGraph {
    TreeSitterCpgBuilder::new().build(src, Language::Rust).expect("parse + build should succeed")
}

fn nodes_where(cpg: &CodePropertyGraph, pred: impl Fn(&CpgNodeKind) -> bool) -> Vec<NodeId> {
    (0..cpg.node_count())
        .map(|i| NodeId::new(i as u32))
        .filter(|&id| cpg.node(id).map(|n| pred(&n.kind)).unwrap_or(false))
        .collect()
}

fn var_named(cpg: &CodePropertyGraph, name: &str) -> NodeId {
    let v = nodes_where(cpg, |k| matches!(k, CpgNodeKind::Variable { name: n, .. } if n == name));
    assert_eq!(v.len(), 1, "expected exactly one `let {name}`");
    v[0]
}

fn ident_use(cpg: &CodePropertyGraph, name: &str) -> NodeId {
    nodes_where(cpg, |k| matches!(k, CpgNodeKind::Identifier { name: n, .. } if n == name))
        .into_iter()
        .find(|&id| !cpg.reaching_definitions(id).is_empty())
        .unwrap_or_else(|| panic!("no reaching-def use of `{name}` (bug: DFG empty?)"))
}

fn count_of(cpg: &CodePropertyGraph, kind: DfgEdgeKind) -> usize {
    cpg.edges().iter().filter(|e| matches!(&e.kind, CpgEdgeKind::DataFlow(k) if *k == kind)).count()
}

#[test]
fn test_dfg_extractor_basic() {
    let mut cpg = CodePropertyGraph::new(Language::Rust);
    let func = create_test_function(&mut cpg);
    let body = cpg.ast_children(func)[0];
    let var = cpg.add_node(CpgNode::new(NodeId::new(0), variable("x"), SourceRange::default()));
    cpg.set_parent(var, Some(body));
    cpg.connect_unique(body, var, CpgEdgeKind::AstChild);
    let ident = cpg.add_node(CpgNode::new(
        NodeId::new(0),
        CpgNodeKind::Identifier { name: "x".into(), definition: Some(var) },
        SourceRange::default(),
    ));
    cpg.set_parent(ident, Some(body));
    cpg.connect_unique(body, ident, CpgEdgeKind::AstChild);
    DfgExtractor::new().extract(&mut cpg);
    assert!(cpg.reaching_definitions(ident).contains(&var), "the definition reaches the use");
}

#[test]
fn test_def_use_chain() {
    let mut chain = DefUseChain::new("x".into());
    chain.add_definition(NodeId::new(1));
    chain.add_definition(NodeId::new(2));
    chain.add_use(NodeId::new(3));
    chain.add_use(NodeId::new(4));
    chain.link(NodeId::new(1), NodeId::new(3));
    chain.link(NodeId::new(2), NodeId::new(4));
    assert_eq!(chain.uses_of(NodeId::new(1)), vec![NodeId::new(3)]);
    assert_eq!(chain.definitions_of(NodeId::new(4)), vec![NodeId::new(2)]);
}

#[test]
fn parsed_nested_use_resolves_and_chains() {
    let cpg = build_rust("fn foo(fd: i32) { let buf = read(fd); let out = decode(buf); sink(out); }");
    assert!(cpg.stats().dfg_edges >= 3, "parsed code must have def-use edges; got {}", cpg.stats().dfg_edges);
    let buf_def = var_named(&cpg, "buf");
    let out_def = var_named(&cpg, "out");
    let buf_use = ident_use(&cpg, "buf");
    let out_use = ident_use(&cpg, "out");
    assert!(cpg.reaching_definitions(buf_use).contains(&buf_def), "reaching defs of the nested `buf` use must include `let buf`");
    assert!(cpg.dfg_successors(buf_def).iter().any(|(t, _)| *t == buf_use), "dfg_successors(let buf) must reach the `buf` use");
    assert!(cpg.ast_descendants(out_def).contains(&buf_use), "the `buf` use lives inside the `let out` statement");
    assert!(cpg.reaching_definitions(out_use).contains(&out_def), "reaching defs of the sink argument `out` must include `let out`");
    assert!(cpg.dfg_successors(out_def).iter().any(|(t, _)| *t == out_use), "dfg_successors(let out) must reach the `out` use");
}

#[test]
fn parsed_reassignment_uses_latest_definition() {
    let cpg = build_rust("fn g(a: i32, b: i32) { let mut x = a; x = b; use_it(x); }");
    let let_x = var_named(&cpg, "x");
    let assign_x = nodes_where(&cpg, |k| matches!(k, CpgNodeKind::Assignment { .. }));
    assert_eq!(assign_x.len(), 1, "one assignment `x = b`");
    let assign_x = assign_x[0];
    let x_use = ident_use(&cpg, "x");
    let reaching = cpg.reaching_definitions(x_use);
    assert!(reaching.contains(&assign_x), "the use must see the latest def `x = b`");
    assert!(!reaching.contains(&let_x), "the use must NOT see the killed def `let mut x = a`");
    assert_eq!(reaching.len(), 1, "straight-line code: exactly one reaching def");
}

#[test]
fn parsed_unrelated_variable_does_not_flow() {
    let cpg = build_rust("fn f() { let x = mk(); let y = mk(); use_x(x); use_y(y); }");
    let x_def = var_named(&cpg, "x");
    let y_def = var_named(&cpg, "y");
    let x_use = ident_use(&cpg, "x");
    let y_use = ident_use(&cpg, "y");
    assert!(cpg.reaching_definitions(x_use).contains(&x_def));
    assert!(cpg.reaching_definitions(y_use).contains(&y_def));
    assert!(!cpg.reaching_definitions(x_use).contains(&y_def), "`y` must not flow to `x`'s use");
    assert!(!cpg.reaching_definitions(y_use).contains(&x_def), "`x` must not flow to `y`'s use");
    assert!(!cpg.dfg_successors(x_def).iter().any(|(t, _)| *t == y_use), "`x`'s def must not reach `y`'s use");
}

#[test]
fn parsed_shadowing_and_idempotent() {
    let mut cpg = build_rust("fn f(n: i32) { let n = n + 1; consume(n); }");
    let param_n = nodes_where(&cpg, |k| matches!(k, CpgNodeKind::Parameter { .. }))[0];
    let let_n = var_named(&cpg, "n");
    let init_use = nodes_where(&cpg, |k| matches!(k, CpgNodeKind::Identifier { name, .. } if name == "n"))
        .into_iter()
        .find(|&id| cpg.reaching_definitions(id).contains(&param_n))
        .expect("initializer use of `n` bound to the parameter");
    assert!(!cpg.reaching_definitions(init_use).contains(&let_n));
    let consume_use = nodes_where(&cpg, |k| matches!(k, CpgNodeKind::Identifier { name, .. } if name == "n"))
        .into_iter()
        .find(|&id| cpg.reaching_definitions(id).contains(&let_n))
        .expect("consume use of `n` bound to the shadowing let");
    assert!(consume_use != init_use);
    let before = cpg.stats().dfg_edges;
    DfgExtractor::new().extract(&mut cpg);
    assert_eq!(before, cpg.stats().dfg_edges, "extract must be idempotent");
}

#[test]
fn dfg_extractor_config_fields_and_with_config() {
    let d = DfgExtractorConfig::default();
    assert!(d.include_field_access);
    assert!(d.include_parameters);
    assert!(d.include_return_values);
    assert!(!d.track_aliases);
    assert_eq!(d.max_iterations, 100);
    let custom = DfgExtractorConfig {
        include_field_access: false,
        include_parameters: false,
        include_return_values: false,
        track_aliases: true,
        max_iterations: 7,
    };
    let extractor = DfgExtractor::with_config(custom);
    let mut cpg = CodePropertyGraph::new(Language::Rust);
    let func = create_test_function(&mut cpg);
    extractor.extract(&mut cpg);
    let _ = func;
}

#[test]
fn def_use_chain_dedup_and_empty_lookups() {
    let mut chain = DefUseChain::new("v".into());
    chain.add_definition(NodeId::new(1));
    chain.add_definition(NodeId::new(1));
    chain.add_definition(NodeId::new(2));
    assert_eq!(chain.definitions.len(), 2);
    chain.add_use(NodeId::new(3));
    chain.add_use(NodeId::new(3));
    assert_eq!(chain.uses.len(), 1);
    chain.link(NodeId::new(1), NodeId::new(3));
    assert_eq!(chain.uses_of(NodeId::new(1)), vec![NodeId::new(3)]);
    assert_eq!(chain.definitions_of(NodeId::new(3)), vec![NodeId::new(1)]);
    assert!(chain.uses_of(NodeId::new(99)).is_empty());
    assert!(chain.definitions_of(NodeId::new(99)).is_empty());
    assert_eq!(chain.variable, "v");
}

#[test]
fn definition_and_use_construction() {
    let d = Definition { variable: "x".into(), node: NodeId::new(1), kind: DefinitionKind::Declaration };
    assert_eq!(d.variable, "x");
    assert_eq!(d.node, NodeId::new(1));
    assert_eq!(d.kind, DefinitionKind::Declaration);
    assert_eq!(d.clone(), d);
    for k in [
        DefinitionKind::Declaration,
        DefinitionKind::Assignment,
        DefinitionKind::Parameter,
        DefinitionKind::FieldWrite,
        DefinitionKind::IndexWrite,
    ] {
        let def = Definition { variable: "v".into(), node: NodeId::new(0), kind: k };
        assert_eq!(def.kind, k);
    }
    let u = Use { variable: "y".into(), node: NodeId::new(2), kind: UseKind::Read };
    assert_eq!(u.kind, UseKind::Read);
    assert_eq!(u.clone(), u);
    for k in [UseKind::Read, UseKind::FieldRead, UseKind::IndexRead, UseKind::Argument] {
        let us = Use { variable: "v".into(), node: NodeId::new(0), kind: k };
        assert_eq!(us.kind, k);
    }
}

#[test]
fn build_def_use_chains_links_def_to_use() {
    let mut cpg = CodePropertyGraph::new(Language::Rust);
    let func = mk_function(&mut cpg, "f");
    let body = dfg_child(&mut cpg, func, CpgNodeKind::Block { scope: ScopeId::global() });
    let var = dfg_child(&mut cpg, body, variable("x"));
    let use_x = dfg_child(&mut cpg, body, dfg_ident("x"));
    DfgExtractor::new().extract(&mut cpg);
    let chains = build_def_use_chains(&cpg, func);
    let chain = chains.iter().find(|c| c.variable == "x").expect("a def-use chain for `x`");
    assert!(chain.definitions.contains(&var));
    assert!(chain.uses.contains(&use_x));
    assert_eq!(chain.uses_of(var), vec![use_x]);
    assert_eq!(chain.definitions_of(use_x), vec![var]);
}

#[test]
fn dfg_extract_idempotent_with_calls_params_returns() {
    let mut cpg = CodePropertyGraph::new(Language::Rust);
    let func = mk_function(&mut cpg, "f");
    let param = dfg_child(&mut cpg, func, CpgNodeKind::Parameter { name: "x".into(), param_type: None, is_variadic: false });
    let body = dfg_child(&mut cpg, func, CpgNodeKind::Block { scope: ScopeId::global() });
    let call = dfg_child(&mut cpg, body, CpgNodeKind::Call { target: None, is_method: false });
    let _callee = dfg_child(&mut cpg, call, dfg_ident("g"));
    let _call_arg = dfg_child(&mut cpg, call, dfg_ident("x"));
    let ret = dfg_child(&mut cpg, body, CpgNodeKind::Return);
    let _ret_val = dfg_child(&mut cpg, ret, dfg_ident("x"));
    let caller = cpg.add_node(CpgNode::new(NodeId::new(0), CpgNodeKind::Call { target: None, is_method: false }, SourceRange::default()));
    let _caller_arg = dfg_child(&mut cpg, caller, dfg_ident("arg0"));
    cpg.connect(caller, func, CpgEdgeKind::CallSite);

    DfgExtractor::new().extract(&mut cpg);
    let after_first = cpg.stats().dfg_edges;
    assert!(after_first > 0, "params/calls/returns must yield DFG edges; got {after_first}");
    DfgExtractor::new().extract(&mut cpg);
    assert_eq!(after_first, cpg.stats().dfg_edges, "auxiliary DFG edge builders must be idempotent");
    let _ = param;
}

#[test]
fn reaching_defs_latest_write_wins() {
    let cpg = build_rust("fn f() { let a = 1; let a = 2; g(a); }");
    let a_defs = nodes_where(&cpg, |k| matches!(k, CpgNodeKind::Variable { name, .. } if name == "a"));
    assert_eq!(a_defs.len(), 2, "two `let a` bindings");
    let earliest = a_defs[0];
    let latest = a_defs[1];
    let a_use = ident_use(&cpg, "a");
    let reaching = cpg.reaching_definitions(a_use);
    assert!(reaching.contains(&latest), "use must see the latest `let a = 2`");
    assert!(!reaching.contains(&earliest), "use must NOT see the killed `let a = 1`");
    assert_eq!(reaching.len(), 1, "straight-line code ⇒ exactly one reaching def");
}

fn rich_function() -> (CodePropertyGraph, NodeId) {
    let mut cpg = CodePropertyGraph::new(Language::Rust);
    let func = mk_function(&mut cpg, "f");
    dfg_child(&mut cpg, func, CpgNodeKind::Parameter { name: "p".into(), param_type: None, is_variadic: false });
    let body = dfg_child(&mut cpg, func, CpgNodeKind::Block { scope: ScopeId::global() });
    let call = dfg_child(&mut cpg, body, CpgNodeKind::Call { target: None, is_method: false });
    dfg_child(&mut cpg, call, dfg_ident("g"));
    dfg_child(&mut cpg, call, dfg_ident("p"));
    let field = dfg_child(&mut cpg, body, CpgNodeKind::MemberAccess { member: "fld".into() });
    dfg_child(&mut cpg, field, dfg_ident("p"));
    let ret = dfg_child(&mut cpg, body, CpgNodeKind::Return);
    dfg_child(&mut cpg, ret, dfg_ident("p"));
    (cpg, func)
}

fn extract_with(config: DfgExtractorConfig) -> CodePropertyGraph {
    let (mut cpg, func) = rich_function();
    DfgExtractor::with_config(config).extract_function_dfg(&mut cpg, func);
    cpg
}

#[test]
fn each_auxiliary_family_is_switchable() {
    let all = extract_with(DfgExtractorConfig::default());
    let no_params = extract_with(DfgExtractorConfig { include_parameters: false, ..DfgExtractorConfig::default() });
    assert_eq!(count_of(&no_params, DfgEdgeKind::Parameter), 0);
    assert_eq!(count_of(&no_params, DfgEdgeKind::ReturnValue), count_of(&all, DfgEdgeKind::ReturnValue), "return edges are unaffected");
    let no_returns = extract_with(DfgExtractorConfig { include_return_values: false, ..DfgExtractorConfig::default() });
    assert_eq!(count_of(&no_returns, DfgEdgeKind::ReturnValue), 0);
    assert_eq!(count_of(&no_returns, DfgEdgeKind::Parameter), count_of(&all, DfgEdgeKind::Parameter), "parameter edges are unaffected");
    let no_fields = extract_with(DfgExtractorConfig { include_field_access: false, ..DfgExtractorConfig::default() });
    assert_eq!(count_of(&no_fields, DfgEdgeKind::FieldRead), 0);
    assert_eq!(count_of(&no_fields, DfgEdgeKind::FieldWrite), 0);
    let core_only = extract_with(DfgExtractorConfig {
        include_parameters: false,
        include_return_values: false,
        include_field_access: false,
        ..DfgExtractorConfig::default()
    });
    assert_eq!(count_of(&core_only, DfgEdgeKind::Parameter), 0);
    assert_eq!(count_of(&core_only, DfgEdgeKind::ReturnValue), 0);
    assert_eq!(count_of(&core_only, DfgEdgeKind::FieldRead), 0);
    assert!(core_only.edge_count() < all.edge_count(), "the auxiliary families really did contribute edges");
    assert!(count_of(&core_only, DfgEdgeKind::DefUse) > 0);
}

#[test]
fn defaults_enable_every_family() {
    let d = DfgExtractorConfig::default();
    assert!(d.include_parameters);
    assert!(d.include_return_values);
    assert!(d.include_field_access);
    assert!(d.max_iterations > 0, "the fixpoint has an iteration bound");
}

#[test]
fn reaching_definitions_terminate_on_a_cyclic_ast() {
    let mut cpg = CodePropertyGraph::new(Language::Rust);
    let func = mk_function(&mut cpg, "f");
    let body = dfg_child(&mut cpg, func, CpgNodeKind::Block { scope: ScopeId::global() });
    let var = dfg_child(&mut cpg, body, variable("x"));
    dfg_child(&mut cpg, body, dfg_ident("x"));
    cpg.connect(var, body, CpgEdgeKind::AstChild);
    cpg.push_child(var, body);
    DfgExtractor::new().extract_function_dfg(&mut cpg, func);
    let chains = build_def_use_chains(&cpg, func);
    for chain in chains.iter() {
        for def in chain.definitions.iter() {
            assert!(cpg.node(*def).is_some(), "definitions are real nodes");
        }
    }
}

#[test]
fn test_def_use_collector() {
    let mut cpg = CodePropertyGraph::new(Language::Rust);
    let func = create_test_function(&mut cpg);
    let body = cpg.ast_children(func)[0];

    let var = cpg.add_node(CpgNode::new(
        NodeId::new(0),
        CpgNodeKind::Variable { name: "x".into(), var_type: None, scope: ScopeId::global(), is_mutable: true },
        SourceRange::default(),
    ));
    cpg.set_parent(var, Some(body));
    cpg.connect_unique(body, var, CpgEdgeKind::AstChild);

    let ident = cpg.add_node(CpgNode::new(
        NodeId::new(0),
        CpgNodeKind::Identifier { name: "x".into(), definition: Some(var) },
        SourceRange::default(),
    ));
    cpg.set_parent(ident, Some(body));
    cpg.connect_unique(body, ident, CpgEdgeKind::AstChild);

    let mut collector = DefUseCollector::new(func);
    collector.collect(&cpg);

    assert!(collector.definition("x").is_some());
    assert!(!collector.uses_of("x").is_empty());
}

#[test]
fn the_collector_keeps_the_last_definition_and_every_use_in_order() {
    let mut cpg = CodePropertyGraph::new(Language::Rust);
    let func = create_test_function(&mut cpg);
    let body = cpg.ast_children(func)[0];
    let first = dfg_child(&mut cpg, body, CpgNodeKind::Variable { name: "a".into(), var_type: None, scope: ScopeId::global(), is_mutable: true });
    let use1 = dfg_child(&mut cpg, body, CpgNodeKind::Identifier { name: "a".into(), definition: None });
    let assign = dfg_child(&mut cpg, body, CpgNodeKind::Assignment { operator: "=".into() });
    let target = dfg_child(&mut cpg, assign, CpgNodeKind::Identifier { name: "a".into(), definition: None });
    let use2 = dfg_child(&mut cpg, assign, CpgNodeKind::Identifier { name: "a".into(), definition: None });
    let field = dfg_child(&mut cpg, body, CpgNodeKind::MemberAccess { member: "len".into() });

    let mut collector = DefUseCollector::new(func);
    collector.collect(&cpg);
    assert_ne!(first, assign);
    assert_eq!(collector.definition("a"), Some(assign));
    assert_eq!(collector.uses_of("a"), vec![use1, use2]);
    assert!(!collector.uses_of("a").contains(&target));
    assert_eq!(collector.definition("b"), None);
    assert!(collector.uses_of("b").is_empty());
    let _ = field;
}

#[test]
fn a_second_data_flow_pass_changes_no_edge() {
    let mut cpg = CodePropertyGraph::new(Language::Rust);
    let func = mk_function(&mut cpg, "f");
    dfg_child(&mut cpg, func, CpgNodeKind::Parameter { name: "p".into(), param_type: None, is_variadic: false });
    let body = dfg_child(&mut cpg, func, CpgNodeKind::Block { scope: ScopeId::global() });
    dfg_child(&mut cpg, body, variable("x"));
    let assign = dfg_child(&mut cpg, body, CpgNodeKind::Assignment { operator: "=".into() });
    dfg_child(&mut cpg, assign, dfg_ident("x"));
    dfg_child(&mut cpg, assign, dfg_ident("p"));
    let index = dfg_child(&mut cpg, body, CpgNodeKind::IndexAccess);
    dfg_child(&mut cpg, index, dfg_ident("x"));
    dfg_child(&mut cpg, index, dfg_ident("p"));
    let ret = dfg_child(&mut cpg, body, CpgNodeKind::Return);
    dfg_child(&mut cpg, ret, dfg_ident("x"));
    let caller = cpg.add_node(CpgNode::new(NodeId::new(0), CpgNodeKind::Call { target: Some(func), is_method: false }, SourceRange::default()));
    dfg_child(&mut cpg, caller, dfg_ident("arg0"));

    DfgExtractor::new().extract(&mut cpg);
    let edges = cpg.edges().clone();
    assert!(count_of(&cpg, DfgEdgeKind::DefUse) > 0);
    assert_eq!(count_of(&cpg, DfgEdgeKind::ReturnValue), 1);
    assert_eq!(count_of(&cpg, DfgEdgeKind::Parameter), 1);
    assert_eq!(count_of(&cpg, DfgEdgeKind::IndexRead), 1);
    DfgExtractor::new().extract(&mut cpg);
    assert_eq!(cpg.edges(), &edges);
}

#[test]
fn the_def_use_edges_come_in_sweep_order() {
    let mut cpg = CodePropertyGraph::new(Language::Rust);
    let func = mk_function(&mut cpg, "f");
    let body = dfg_child(&mut cpg, func, CpgNodeKind::Block { scope: ScopeId::global() });
    let x = dfg_child(&mut cpg, body, variable("x"));
    let first = dfg_child(&mut cpg, body, dfg_ident("x"));
    let second = dfg_child(&mut cpg, body, dfg_ident("x"));
    let ast_edges = cpg.edge_count();
    DfgExtractor::new().extract(&mut cpg);
    let added: Vec<(NodeId, NodeId, CpgEdgeKind)> =
        cpg.edges()[ast_edges..].iter().map(|e| (e.source, e.target, e.kind)).collect();
    let du = CpgEdgeKind::DataFlow(DfgEdgeKind::DefUse);
    assert_eq!(added, vec![(x, first, du), (x, second, du)]);
}

#[test]
fn chains_come_one_per_variable_in_edge_order() {
    let mut cpg = CodePropertyGraph::new(Language::Rust);
    let func = mk_function(&mut cpg, "f");
    let body = dfg_child(&mut cpg, func, CpgNodeKind::Block { scope: ScopeId::global() });
    let x = dfg_child(&mut cpg, body, variable("x"));
    let y = dfg_child(&mut cpg, body, variable("y"));
    let ux = dfg_child(&mut cpg, body, dfg_ident("x"));
    let uy = dfg_child(&mut cpg, body, dfg_ident("y"));
    let ux2 = dfg_child(&mut cpg, body, dfg_ident("x"));
    DfgExtractor::new().extract(&mut cpg);
    let chains = build_def_use_chains(&cpg, func);
    assert_eq!(chains.len(), 2);
    assert_eq!(chains[0].variable, "x");
    assert_eq!(chains[0].definitions, vec![x]);
    assert_eq!(chains[0].uses, vec![ux, ux2]);
    assert_eq!(chains[0].uses_of(x), vec![ux, ux2]);
    assert_eq!(chains[1].variable, "y");
    assert_eq!(chains[1].definitions, vec![y]);
    assert_eq!(chains[1].definitions_of(uy), vec![y]);
}

#[test]
fn a_parameter_reaches_its_uses_but_not_its_own_name() {
    let mut cpg = CodePropertyGraph::new(Language::Rust);
    let func = mk_function(&mut cpg, "f");
    let param = dfg_child(&mut cpg, func, CpgNodeKind::Parameter { name: "x".into(), param_type: None, is_variadic: false });
    let binder = dfg_child(&mut cpg, param, dfg_ident("x"));
    let body = dfg_child(&mut cpg, func, CpgNodeKind::Block { scope: ScopeId::global() });
    let use_site = dfg_child(&mut cpg, body, dfg_ident("x"));

    DfgExtractor::new().extract_function_dfg(&mut cpg, func);

    let def_use = |s: NodeId, t: NodeId| {
        cpg.edges().iter().any(|e| e.source == s && e.target == t && e.kind == CpgEdgeKind::DataFlow(DfgEdgeKind::DefUse))
    };
    assert!(def_use(param, use_site), "the parameter reaches the use of its name in the body");
    assert!(
        !cpg.edges().iter().any(|e| e.target == binder && e.kind == CpgEdgeKind::DataFlow(DfgEdgeKind::DefUse)),
        "the parameter's own name is a definition site, not a use"
    );
}

#[test]
fn field_access_switches_index_reads_and_their_dependencies() {
    let build = |config: DfgExtractorConfig| {
        let mut cpg = CodePropertyGraph::new(Language::Rust);
        let func = mk_function(&mut cpg, "f");
        let body = dfg_child(&mut cpg, func, CpgNodeKind::Block { scope: ScopeId::global() });
        let index = dfg_child(&mut cpg, body, CpgNodeKind::IndexAccess);
        dfg_child(&mut cpg, index, dfg_ident("arr"));
        dfg_child(&mut cpg, index, dfg_ident("i"));
        DfgExtractor::with_config(config).extract_function_dfg(&mut cpg, func);
        cpg
    };
    let on = build(DfgExtractorConfig::default());
    assert_eq!(count_of(&on, DfgEdgeKind::IndexRead), 1);
    assert_eq!(count_of(&on, DfgEdgeKind::DataDependency), 1);
    let off = build(DfgExtractorConfig { include_field_access: false, ..DfgExtractorConfig::default() });
    assert_eq!(count_of(&off, DfgEdgeKind::IndexRead), 0);
    assert_eq!(count_of(&off, DfgEdgeKind::DataDependency), 0);
    assert_eq!(count_of(&off, DfgEdgeKind::DefUse), count_of(&on, DfgEdgeKind::DefUse), "def-use edges do not depend on the option");
}
