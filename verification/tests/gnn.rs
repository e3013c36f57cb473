use libcpg::gnn::{feature_slot, message_sources, FEATURE_SLOTS};
use libcpg::graph::{
    CfgEdgeKind, CodePropertyGraph, CpgEdgeKind, CpgNode, CpgNodeKind, DfgEdgeKind, Language, NodeId, ScopeId,
    SourceRange,
};

fn node(cpg: &mut CodePropertyGraph, kind: CpgNodeKind) -> NodeId {
    cpg.add_node(CpgNode::new(NodeId::new(0), kind, SourceRange::default()))
}

#[test]
fn feature_slots_follow_the_node_category() {
    assert_eq!(feature_slot(&CpgNodeKind::Root), 0);
    assert_eq!(feature_slot(&CpgNodeKind::Module { name: "m".into() }), 1);
    assert_eq!(feature_slot(&CpgNodeKind::Struct { name: "s".into() }), 2);
    assert_eq!(feature_slot(&CpgNodeKind::While), 5);
    assert_eq!(feature_slot(&CpgNodeKind::Continue), 6);
    assert_eq!(feature_slot(&CpgNodeKind::Call { target: None, is_method: true }), 7);
    assert_eq!(feature_slot(&CpgNodeKind::UnaryOp { operator: "-".into() }), 8);
    assert_eq!(feature_slot(&CpgNodeKind::Identifier { name: "x".into(), definition: None }), 10);
    assert_eq!(feature_slot(&CpgNodeKind::Block { scope: ScopeId::global() }), 12);
    assert_eq!(feature_slot(&CpgNodeKind::Throw), 14);
    assert_eq!(feature_slot(&CpgNodeKind::Comment { is_doc: false }), 15);
    assert_eq!(FEATURE_SLOTS, 16);
}

#[test]
fn messages_come_from_children_parent_then_flow_neighbours() {
    let mut cpg = CodePropertyGraph::new(Language::Rust);
    let f = node(&mut cpg, CpgNodeKind::Root);
    let mut b = CpgNode::new(NodeId::new(0), CpgNodeKind::Block { scope: ScopeId::global() }, SourceRange::default());
    b.parent = Some(f);
    let b = cpg.add_node(b);
    cpg.connect(f, b, CpgEdgeKind::AstChild);
    let c = node(&mut cpg, CpgNodeKind::Return);
    cpg.connect(b, c, CpgEdgeKind::AstChild);
    let x = node(&mut cpg, CpgNodeKind::Break);
    let y = node(&mut cpg, CpgNodeKind::Continue);
    let z = node(&mut cpg, CpgNodeKind::If);
    cpg.connect(b, x, CpgEdgeKind::ControlFlow(CfgEdgeKind::Sequential));
    cpg.connect(z, b, CpgEdgeKind::ControlFlow(CfgEdgeKind::Sequential));
    cpg.connect(y, b, CpgEdgeKind::DataFlow(DfgEdgeKind::DefUse));
    assert_eq!(message_sources(&cpg, b), vec![c, f, x, z, y]);
    assert_eq!(message_sources(&cpg, f), vec![b]);
}

#[test]
fn aggregation_defaults_to_the_mean() {
    assert_eq!(libcpg::gnn::AggregationMethod::default(), libcpg::gnn::AggregationMethod::Mean);
}
