use libcpg::graph::{
    CfgEdgeKind, CodePropertyGraph, CpgEdgeKind, CpgNode, CpgNodeKind, Language, MethodSignature, NodeId, ScopeId,
    SourceRange, Visibility,
};
use libcpg::scc::{call_graph_sccs, control_flow_sccs, decompose, SccAnalysisError, SccProjection};

fn node(kind: CpgNodeKind) -> CpgNode {
    CpgNode::new(NodeId::new(0), kind, SourceRange::default())
}

fn function(name: &str) -> CpgNodeKind {
    CpgNodeKind::Function {
        signature: MethodSignature {
            name: name.into(),
            params: Default::default(),
            return_type: None,
            is_static: false,
            is_async: false,
            visibility: Visibility::Private,
        },
    }
}

fn ast(cpg: &mut CodePropertyGraph, parent: NodeId, child: NodeId) {
    cpg.connect(parent, child, CpgEdgeKind::AstChild);
}

fn cfg(cpg: &mut CodePropertyGraph, source: NodeId, target: NodeId) {
    cpg.connect(source, target, CpgEdgeKind::ControlFlow(CfgEdgeKind::Sequential));
}

#[test]
fn cfg_partition_finds_loop_self_cycle_and_condensation_edges() {
    let mut cpg = CodePropertyGraph::new(Language::Rust);
    let function = cpg.add_node(node(function("f")));
    let block = cpg.add_node(node(CpgNodeKind::Block { scope: ScopeId::global() }));
    let head = cpg.add_node(node(CpgNodeKind::While));
    let body = cpg.add_node(node(CpgNodeKind::Assignment { operator: "=".into() }));
    let tail = cpg.add_node(node(CpgNodeKind::Return));
    for child in [block, head, body, tail] {
        ast(&mut cpg, function, child);
    }
    cfg(&mut cpg, function, block);
    cfg(&mut cpg, block, head);
    cfg(&mut cpg, head, body);
    cfg(&mut cpg, body, head);
    cfg(&mut cpg, head, tail);
    cfg(&mut cpg, tail, tail);

    let result = control_flow_sccs(&cpg, function).expect("valid function");
    assert_eq!(result.node_count(), 5);
    assert_eq!(result.components.len(), 4);
    assert_eq!(result.component_of(head).expect("loop component").nodes, vec![head, body]);
    assert!(result.component_of(head).expect("loop component").cyclic);
    assert!(result.component_of(tail).expect("tail component").is_self_cycle());
    assert_eq!(result.cyclic_components().len(), 2);
    assert!(!result.is_acyclic());
    assert!(result.condensation_edges.iter().all(|edge| edge.source != edge.target));
}

#[test]
fn cfg_scope_excludes_nested_functions_and_interprocedural_call_edges() {
    let mut cpg = CodePropertyGraph::new(Language::Rust);
    let outer = cpg.add_node(node(function("outer")));
    let outer_body = cpg.add_node(node(CpgNodeKind::Block { scope: ScopeId::global() }));
    let call = cpg.add_node(node(CpgNodeKind::Call { target: None, is_method: false }));
    let nested = cpg.add_node(node(function("nested")));
    let nested_body = cpg.add_node(node(CpgNodeKind::Block { scope: ScopeId::global() }));
    ast(&mut cpg, outer, outer_body);
    ast(&mut cpg, outer_body, call);
    ast(&mut cpg, outer_body, nested);
    ast(&mut cpg, nested, nested_body);
    cfg(&mut cpg, outer, outer_body);
    cfg(&mut cpg, outer_body, call);
    cpg.connect(call, nested, CpgEdgeKind::ControlFlow(CfgEdgeKind::Call));
    cfg(&mut cpg, nested, nested_body);
    cfg(&mut cpg, nested_body, nested);

    let outer_result = control_flow_sccs(&cpg, outer).expect("outer CFG");
    assert_eq!(outer_result.node_count(), 3);
    assert!(outer_result.component_of(nested).is_none());
    assert!(outer_result.is_acyclic());

    let nested_result = control_flow_sccs(&cpg, nested).expect("nested CFG");
    assert_eq!(nested_result.node_count(), 2);
    assert_eq!(nested_result.cyclic_components().len(), 1);
}

#[test]
fn empty_cfg_retains_the_function_as_an_isolated_component() {
    let mut cpg = CodePropertyGraph::new(Language::Rust);
    let function = cpg.add_node(node(function("empty")));
    let result = control_flow_sccs(&cpg, function).expect("empty function CFG");
    assert_eq!(result.node_count(), 1);
    assert_eq!(result.components[0].nodes, vec![function]);
    assert!(result.is_acyclic());
}

#[test]
fn cfg_rejects_unknown_and_non_function_nodes() {
    let mut cpg = CodePropertyGraph::new(Language::Rust);
    let block = cpg.add_node(node(CpgNodeKind::Block { scope: ScopeId::global() }));
    assert_eq!(control_flow_sccs(&cpg, NodeId::new(999)), Err(SccAnalysisError::UnknownNode(NodeId::new(999))));
    assert_eq!(control_flow_sccs(&cpg, block), Err(SccAnalysisError::NotAFunction(block)));
}

#[test]
fn call_graph_finds_mutual_and_direct_recursion_from_both_edge_encodings() {
    let mut cpg = CodePropertyGraph::new(Language::Rust);
    let a = cpg.add_node(node(function("a")));
    let b = cpg.add_node(node(function("b")));
    let c = cpg.add_node(node(function("c")));
    let isolated = cpg.add_node(node(function("isolated")));
    let call_ab = cpg.add_node(node(CpgNodeKind::Call { target: Some(b), is_method: false }));
    let call_ba = cpg.add_node(node(CpgNodeKind::Call { target: None, is_method: false }));
    let call_cc = cpg.add_node(node(CpgNodeKind::Call { target: Some(c), is_method: false }));
    ast(&mut cpg, a, call_ab);
    ast(&mut cpg, b, call_ba);
    ast(&mut cpg, c, call_cc);
    cpg.connect(call_ba, a, CpgEdgeKind::StaticCall);

    let result = call_graph_sccs(&cpg);
    assert_eq!(result.node_count(), 4);
    assert_eq!(result.components.len(), 3);
    assert_eq!(result.component_of(a).expect("mutual component").nodes, vec![a, b]);
    assert!(result.component_of(a).expect("mutual component").is_multi_node_cycle());
    assert!(result.component_of(c).expect("direct component").is_self_cycle());
    assert!(!result.component_of(isolated).expect("isolated component").cyclic);
}

#[test]
fn call_graph_does_not_attribute_nested_calls_to_the_outer_function() {
    let mut cpg = CodePropertyGraph::new(Language::Rust);
    let outer = cpg.add_node(node(function("outer")));
    let nested = cpg.add_node(node(function("nested")));
    let target = cpg.add_node(node(function("target")));
    let call = cpg.add_node(node(CpgNodeKind::Call { target: Some(target), is_method: false }));
    ast(&mut cpg, outer, nested);
    ast(&mut cpg, nested, call);
    cpg.connect(target, nested, CpgEdgeKind::CallSite);

    let result = call_graph_sccs(&cpg);
    assert!(!result.component_of(outer).expect("outer").cyclic);
    assert_eq!(result.component_of(nested).expect("nested/target").nodes, vec![nested, target]);
}

#[test]
fn iterative_decomposition_handles_a_deep_graph_without_native_recursion() {
    const NODE_COUNT: usize = 50_000;
    let adjacency: Vec<Vec<usize>> = (0..NODE_COUNT).map(|i| if i + 1 < NODE_COUNT { vec![i + 1] } else { Vec::new() }).collect();
    let mask = vec![true; NODE_COUNT];
    let result = decompose(SccProjection::CallGraph, &adjacency, &mask);
    assert_eq!(result.node_count(), NODE_COUNT);
    assert_eq!(result.components.len(), NODE_COUNT);
    assert!(result.is_acyclic());
    assert_eq!(result.condensation_edges.len(), NODE_COUNT - 1);
}

#[test]
fn small_graphs_partition_like_a_brute_force_closure() {
    let n = 7usize;
    let edges = [(0, 1), (1, 2), (2, 0), (3, 3), (4, 5), (5, 6), (6, 5), (2, 4)];
    let mut adjacency: Vec<Vec<usize>> = vec![Vec::new(); n];
    for &(a, b) in &edges {
        adjacency[a].push(b);
    }
    let mut reach = vec![vec![false; n]; n];
    for v in 0..n {
        reach[v][v] = true;
    }
    for &(a, b) in &edges {
        reach[a][b] = true;
    }
    for k in 0..n {
        for i in 0..n {
            for j in 0..n {
                if reach[i][k] && reach[k][j] {
                    reach[i][j] = true;
                }
            }
        }
    }
    let result = decompose(SccProjection::CallGraph, &adjacency, &vec![true; n]);
    for a in 0..n {
        for b in 0..n {
            let ca = result.component_of(NodeId::new(a as u32)).expect("a").id;
            let cb = result.component_of(NodeId::new(b as u32)).expect("b").id;
            assert_eq!(ca == cb, reach[a][b] && reach[b][a], "{a} and {b}");
        }
    }
    assert_eq!(result.components.len(), 4);
}

#[test]
fn no_condensation_walk_returns_to_its_start() {
    let n = 8usize;
    let edges = [(0, 1), (1, 0), (1, 2), (2, 3), (3, 2), (3, 4), (4, 5), (5, 6), (6, 4), (0, 7), (7, 3), (2, 2)];
    let mut adjacency: Vec<Vec<usize>> = vec![Vec::new(); n];
    for &(a, b) in &edges {
        adjacency[a].push(b);
    }
    let result = decompose(SccProjection::CallGraph, &adjacency, &vec![true; n]);
    let count = result.components.len();
    assert_eq!(count, 4);
    for start in 0..count {
        let mut seen = vec![false; count];
        let mut stack = vec![start];
        while let Some(c) = stack.pop() {
            for e in &result.condensation_edges {
                if e.source == c {
                    assert_ne!(e.target, start, "a walk from component {start} came back");
                    if !seen[e.target] {
                        seen[e.target] = true;
                        stack.push(e.target);
                    }
                }
            }
        }
    }
}

#[test]
fn cyclic_components_come_in_component_order() {
    let mut cpg = CodePropertyGraph::new(Language::Rust);
    let function = cpg.add_node(node(function("f")));
    let block = cpg.add_node(node(CpgNodeKind::Block { scope: ScopeId::global() }));
    let head = cpg.add_node(node(CpgNodeKind::While));
    let body = cpg.add_node(node(CpgNodeKind::Assignment { operator: "=".into() }));
    let tail = cpg.add_node(node(CpgNodeKind::Return));
    for child in [block, head, body, tail] {
        ast(&mut cpg, function, child);
    }
    cfg(&mut cpg, function, block);
    cfg(&mut cpg, block, head);
    cfg(&mut cpg, head, body);
    cfg(&mut cpg, body, head);
    cfg(&mut cpg, head, tail);
    cfg(&mut cpg, tail, tail);

    let result = control_flow_sccs(&cpg, function).expect("valid function");
    let cyclic = result.cyclic_components();
    let expected: Vec<_> = result.components.iter().filter(|c| c.cyclic).collect();
    assert_eq!(cyclic, expected);
    assert_eq!(cyclic[0].nodes, vec![head, body]);
    assert_eq!(cyclic[1].nodes, vec![tail]);
    assert!(cyclic[0].id < cyclic[1].id);
}

#[test]
fn node_count_matches_the_partition() {
    let mut cpg = CodePropertyGraph::new(Language::Rust);
    let function = cpg.add_node(node(function("f")));
    let a = cpg.add_node(node(CpgNodeKind::Block { scope: ScopeId::global() }));
    let b = cpg.add_node(node(CpgNodeKind::While));
    let c = cpg.add_node(node(CpgNodeKind::Return));
    for child in [a, b, c] {
        ast(&mut cpg, function, child);
    }
    cfg(&mut cpg, function, a);
    cfg(&mut cpg, a, b);
    cfg(&mut cpg, b, a);
    cfg(&mut cpg, b, c);

    let result = control_flow_sccs(&cpg, function).expect("valid function");
    let total: usize = result.components.iter().map(|comp| comp.nodes.len()).sum();
    assert_eq!(result.node_count(), 4);
    assert_eq!(result.node_count(), result.component_by_node.len());
    assert_eq!(result.node_count(), total);
}

#[test]
fn a_graph_without_cycles_is_acyclic_and_one_with_a_self_loop_is_not() {
    let mut cpg = CodePropertyGraph::new(Language::Rust);
    let function = cpg.add_node(node(function("f")));
    let a = cpg.add_node(node(CpgNodeKind::Block { scope: ScopeId::global() }));
    let b = cpg.add_node(node(CpgNodeKind::Return));
    ast(&mut cpg, function, a);
    ast(&mut cpg, function, b);
    cfg(&mut cpg, function, a);
    cfg(&mut cpg, a, b);
    let straight = control_flow_sccs(&cpg, function).expect("valid function");
    assert!(straight.is_acyclic());
    assert!(straight.cyclic_components().is_empty());

    cfg(&mut cpg, b, b);
    let looped = control_flow_sccs(&cpg, function).expect("valid function");
    assert!(!looped.is_acyclic());
    assert_eq!(looped.cyclic_components().len(), 1);
}
