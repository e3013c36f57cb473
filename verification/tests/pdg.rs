use libcpg::builder::cfg::CfgExtractor;
use libcpg::builder::dfg::DfgExtractor;
use libcpg::builder::pdg::{backward_slice, compute_control_dependence, control_dependence_from, forward_slice, PdgBuilder, VIRTUAL_EXIT};
use libcpg::builder::ts_builder::TreeSitterCpgBuilder;
use libcpg::graph::{
    CodePropertyGraph, CpgEdgeKind, CpgNode, CpgNodeKind, Language, MethodSignature, NodeId, ScopeId, SourceRange,
    Visibility,
};

fn add_child(cpg: &mut CodePropertyGraph, parent: NodeId, kind: CpgNodeKind) -> NodeId {
    let id = cpg.add_node(CpgNode::new(NodeId::new(0), kind, SourceRange::default()));
    cpg.connect(parent, id, CpgEdgeKind::AstChild);
    cpg.set_parent(id, Some(parent));
    cpg.push_child(parent, id);
    id
}

fn add_function(cpg: &mut CodePropertyGraph, name: &str) -> NodeId {
    cpg.add_node(CpgNode::new(
        NodeId::new(0),
        CpgNodeKind::Function {
            signature: MethodSignature {
                name: name.into(),
                params: Default::default(),
                return_type: None,
                is_static: false,
                is_async: false,
                visibility: Visibility::Public,
            },
        },
        SourceRange::default(),
    ))
}

fn ident(name: &str) -> CpgNodeKind {
    CpgNodeKind::Identifier { name: name.into(), definition: None }
}

fn variable(name: &str) -> CpgNodeKind {
    CpgNodeKind::Variable { name: name.into(), var_type: None, scope: ScopeId::global(), is_mutable: false }
}

fn block() -> CpgNodeKind {
    CpgNodeKind::Block { scope: ScopeId::global() }
}

fn has_control_dependence(cpg: &CodePropertyGraph, from: NodeId, to: NodeId) -> bool {
    cpg.edges_between(from, to).iter().any(|e| e.kind == CpgEdgeKind::ControlDependence)
}

fn control_dependence_count(cpg: &CodePropertyGraph) -> usize {
    cpg.edges().iter().filter(|e| e.kind == CpgEdgeKind::ControlDependence).count()
}

#[test]
fn if_diamond_control_dependence() {
    let mut cpg = CodePropertyGraph::new(Language::Rust);
    let func = add_function(&mut cpg, "f");
    let body = add_child(&mut cpg, func, block());
    let if_node = add_child(&mut cpg, body, CpgNodeKind::If);
    let cond = add_child(&mut cpg, if_node, ident("p"));
    let then_block = add_child(&mut cpg, if_node, block());
    let then_stmt = add_child(&mut cpg, then_block, ident("a"));
    let else_block = add_child(&mut cpg, if_node, block());
    let else_stmt = add_child(&mut cpg, else_block, ident("b"));

    CfgExtractor::new().extract(&mut cpg);
    PdgBuilder::new().build(&mut cpg, func);

    assert!(has_control_dependence(&cpg, cond, then_block));
    assert!(has_control_dependence(&cpg, cond, else_block));
    assert!(has_control_dependence(&cpg, cond, then_stmt));
    assert!(has_control_dependence(&cpg, cond, else_stmt));
    assert!(
        !cpg.incoming_edges(cond).iter().any(|e| e.kind == CpgEdgeKind::ControlDependence),
        "the top-level condition must not be control-dependent"
    );
}

#[test]
fn while_body_control_dependent_on_guard() {
    let mut cpg = CodePropertyGraph::new(Language::Rust);
    let func = add_function(&mut cpg, "f");
    let body = add_child(&mut cpg, func, block());
    let while_node = add_child(&mut cpg, body, CpgNodeKind::While);
    let guard = add_child(&mut cpg, while_node, ident("c"));
    let loop_body = add_child(&mut cpg, while_node, block());
    let loop_stmt = add_child(&mut cpg, loop_body, ident("work"));

    CfgExtractor::new().extract(&mut cpg);
    PdgBuilder::new().build(&mut cpg, func);

    assert!(has_control_dependence(&cpg, guard, loop_body));
    assert!(has_control_dependence(&cpg, guard, loop_stmt));
    assert!(has_control_dependence(&cpg, guard, guard));
}

#[test]
fn straight_line_has_no_control_dependence() {
    let mut cpg = CodePropertyGraph::new(Language::Rust);
    let func = add_function(&mut cpg, "f");
    let body = add_child(&mut cpg, func, block());
    let _s1 = add_child(&mut cpg, body, ident("s1"));
    let _s2 = add_child(&mut cpg, body, ident("s2"));
    let _s3 = add_child(&mut cpg, body, ident("s3"));

    CfgExtractor::new().extract(&mut cpg);
    PdgBuilder::new().build(&mut cpg, func);

    assert_eq!(control_dependence_count(&cpg), 0, "straight-line code must have no control dependence");
}

#[test]
fn def_use_backward_slice() {
    let mut cpg = CodePropertyGraph::new(Language::Rust);
    let func = add_function(&mut cpg, "f");
    let body = add_child(&mut cpg, func, block());
    let def_x = add_child(&mut cpg, body, variable("x"));
    let use_x = add_child(&mut cpg, body, ident("x"));

    CfgExtractor::new().extract(&mut cpg);
    DfgExtractor::new().extract(&mut cpg);
    PdgBuilder::new().build(&mut cpg, func);

    let slice = backward_slice(&cpg, use_x, 100);
    assert!(slice.contains(&use_x), "slice must contain the criterion");
    assert!(slice.contains(&def_x), "backward slice of a use must contain its reaching definition");
    let forward = forward_slice(&cpg, def_x, 100);
    assert!(forward.contains(&def_x));
    assert!(forward.contains(&use_x));
    let capped = backward_slice(&cpg, use_x, 1);
    assert_eq!(capped.len(), 1);
}

#[test]
fn parsed_rust_if_has_control_dependence() {
    let source = "fn f(x: bool) { if x { a(); } else { b(); } }";
    let mut cpg = TreeSitterCpgBuilder::new().build(source, Language::Rust).expect("build should succeed");
    let func = *cpg.functions().first().expect("function node");
    PdgBuilder::new().build(&mut cpg, func);
    assert!(control_dependence_count(&cpg) >= 1, "a parsed if/else must yield control dependence");
    let some_node = *cpg.functions().first().expect("node");
    assert!(backward_slice(&cpg, some_node, 64).contains(&some_node));
}

#[test]
fn parsed_rust_straight_line_no_control_dependence() {
    let source = "fn f() {}";
    let mut cpg = TreeSitterCpgBuilder::new().build(source, Language::Rust).expect("build should succeed");
    let func = *cpg.functions().first().expect("function node");
    PdgBuilder::new().build(&mut cpg, func);
    assert_eq!(control_dependence_count(&cpg), 0);
}

#[test]
fn rebuilding_adds_no_edges() {
    let mut cpg = CodePropertyGraph::new(Language::Rust);
    let func = add_function(&mut cpg, "f");
    let body = add_child(&mut cpg, func, block());
    let if_node = add_child(&mut cpg, body, CpgNodeKind::If);
    let _cond = add_child(&mut cpg, if_node, ident("p"));
    let then_block = add_child(&mut cpg, if_node, block());
    let _x = add_child(&mut cpg, then_block, variable("x"));
    let _use = add_child(&mut cpg, then_block, ident("x"));
    CfgExtractor::new().extract(&mut cpg);
    DfgExtractor::new().extract(&mut cpg);
    PdgBuilder::new().build(&mut cpg, func);
    let after_first = cpg.edge_count();
    PdgBuilder::new().build(&mut cpg, func);
    assert_eq!(after_first, cpg.edge_count());
}

#[test]
fn slices_respect_bounds_and_grow_with_them() {
    let mut cpg = CodePropertyGraph::new(Language::Rust);
    let func = add_function(&mut cpg, "f");
    let body = add_child(&mut cpg, func, block());
    let a = add_child(&mut cpg, body, variable("a"));
    let b = add_child(&mut cpg, body, variable("b"));
    let c = add_child(&mut cpg, body, ident("c"));
    cpg.connect(a, b, CpgEdgeKind::DataDependence);
    cpg.connect(b, c, CpgEdgeKind::ControlDependence);
    assert!(backward_slice(&cpg, c, 0).is_empty());
    assert!(backward_slice(&cpg, NodeId::new(999), 5).is_empty());
    assert_eq!(backward_slice(&cpg, c, 1), vec![c]);
    assert_eq!(backward_slice(&cpg, c, 2), vec![c, b]);
    assert_eq!(backward_slice(&cpg, c, 10), vec![c, b, a]);
    assert_eq!(forward_slice(&cpg, a, 10), vec![a, b, c]);
    assert_eq!(forward_slice(&cpg, c, 10), vec![c]);
}

#[test]
fn control_dependence_from_walks_the_dominator_tree() {
    // Reversed diamond: 0 branches to 1 and 2, both reach 3, 3 exits.
    let member = vec![true; 4];
    let succ = vec![vec![1, 2], vec![3], vec![3], vec![]];
    let linked = vec![false, false, false, true];
    let idom = vec![Some(3), Some(3), Some(3), Some(VIRTUAL_EXIT)];
    let mut pairs = control_dependence_from(&member, &succ, &linked, &idom);
    pairs.sort();
    assert_eq!(pairs, vec![(NodeId::new(0), NodeId::new(1)), (NodeId::new(0), NodeId::new(2))]);
    // Without an immediate dominator for the join nothing is emitted.
    let none = control_dependence_from(&member, &succ, &linked, &vec![None, Some(3), Some(3), Some(VIRTUAL_EXIT)]);
    assert!(none.is_empty());
}

#[test]
fn control_dependence_of_an_unknown_function_is_empty() {
    let cpg = CodePropertyGraph::new(Language::Rust);
    assert!(compute_control_dependence(&cpg, NodeId::new(3)).is_empty());
}
