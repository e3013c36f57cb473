use libcpg::algorithms::detection::control_flow::{ControlFlowAnalyzer, LoopKind, LoopPattern, RecursionKind};
use libcpg::graph::{
    CodePropertyGraph, CpgEdgeKind, CpgNode, CpgNodeKind, Language, LiteralKind, MethodSignature, NodeId, ScopeId,
    SourceRange, Visibility,
};

fn wf_child(cpg: &mut CodePropertyGraph, parent: NodeId, kind: CpgNodeKind) -> NodeId {
    let id = cpg.add_node(CpgNode::new(NodeId::new(0), kind, SourceRange::default()));
    cpg.connect(parent, id, CpgEdgeKind::AstChild);
    cpg.set_parent(id, Some(parent));
    cpg.push_child(parent, id);
    id
}

fn make_function(cpg: &mut CodePropertyGraph, name: &str) -> NodeId {
    cpg.add_node(CpgNode::new(
        NodeId::new(0),
        CpgNodeKind::Function {
            signature: MethodSignature {
                name: name.into(),
                params: Default::default(),
                return_type: None,
                is_static: false,
                is_async: false,
                visibility: Visibility::Public,
            },
        },
        SourceRange::default(),
    ))
}

fn create_test_cpg_with_loop() -> (CodePropertyGraph, NodeId) {
    let mut cpg = CodePropertyGraph::new(Language::Rust);
    let func = make_function(&mut cpg, "test_func");
    let block = cpg.add_node(CpgNode::new(NodeId::new(0), CpgNodeKind::Block { scope: ScopeId::global() }, SourceRange::default()));
    cpg.connect(func, block, CpgEdgeKind::AstChild);
    let for_loop = cpg.add_node(CpgNode::new(NodeId::new(0), CpgNodeKind::For, SourceRange::default()));
    cpg.connect(block, for_loop, CpgEdgeKind::AstChild);
    (cpg, func)
}

fn create_test_cpg_with_nested_loops() -> (CodePropertyGraph, NodeId) {
    let mut cpg = CodePropertyGraph::new(Language::Rust);
    let func = make_function(&mut cpg, "nested_loops");
    let mut block_node = CpgNode::new(NodeId::new(0), CpgNodeKind::Block { scope: ScopeId::global() }, SourceRange::default());
    block_node.parent = Some(func);
    let block = cpg.add_node(block_node);
    cpg.connect(func, block, CpgEdgeKind::AstChild);
    let mut outer_loop_node = CpgNode::new(NodeId::new(0), CpgNodeKind::For, SourceRange::default());
    outer_loop_node.parent = Some(block);
    let outer_loop = cpg.add_node(outer_loop_node);
    cpg.connect(block, outer_loop, CpgEdgeKind::AstChild);
    let mut inner_loop_node = CpgNode::new(NodeId::new(0), CpgNodeKind::While, SourceRange::default());
    inner_loop_node.parent = Some(outer_loop);
    let inner_loop = cpg.add_node(inner_loop_node);
    cpg.connect(outer_loop, inner_loop, CpgEdgeKind::AstChild);
    (cpg, func)
}

#[test]
fn test_detect_single_loop() {
    let (cpg, func) = create_test_cpg_with_loop();
    let loops = ControlFlowAnalyzer::new().detect_loops(&cpg, func);
    assert_eq!(loops.len(), 1);
    assert_eq!(loops[0].kind, LoopKind::For);
    assert_eq!(loops[0].depth, 1);
}

#[test]
fn test_detect_nested_loops() {
    let (cpg, func) = create_test_cpg_with_nested_loops();
    let loops = ControlFlowAnalyzer::new().detect_loops(&cpg, func);
    assert_eq!(loops.len(), 2);
    let outer = loops.iter().find(|l| l.kind == LoopKind::For).expect("outer loop");
    let inner = loops.iter().find(|l| l.kind == LoopKind::While).expect("inner loop");
    assert_eq!(outer.depth, 1);
    assert_eq!(inner.depth, 2);
}

#[test]
fn test_no_loops() {
    let mut cpg = CodePropertyGraph::new(Language::Rust);
    let func = make_function(&mut cpg, "no_loops");
    let loops = ControlFlowAnalyzer::new().detect_loops(&cpg, func);
    assert!(loops.is_empty());
}

#[test]
fn test_no_recursion_in_non_recursive_function() {
    let (cpg, func) = create_test_cpg_with_loop();
    assert!(ControlFlowAnalyzer::new().detect_recursion(&cpg, func).is_none());
}

#[test]
fn control_flow_test_analyzer_creation() {
    let analyzer = ControlFlowAnalyzer::new();
    let default_analyzer = ControlFlowAnalyzer::default();
    let _ = format!("{:?}", analyzer);
    let _ = format!("{:?}", default_analyzer);
}

#[test]
fn test_detect_recursion_direct_with_base_case() {
    let mut cpg = CodePropertyGraph::new(Language::Rust);
    let func = make_function(&mut cpg, "fact");
    let if_node = wf_child(&mut cpg, func, CpgNodeKind::If);
    let base_ret = wf_child(&mut cpg, if_node, CpgNodeKind::Return);
    wf_child(&mut cpg, base_ret, CpgNodeKind::Literal { kind: LiteralKind::Integer(1) });
    let call = wf_child(&mut cpg, func, CpgNodeKind::Call { target: None, is_method: false });
    wf_child(&mut cpg, call, CpgNodeKind::Identifier { name: "fact".into(), definition: None });

    let rec = ControlFlowAnalyzer::new().detect_recursion(&cpg, func).expect("direct recursion should be detected");
    assert_eq!(rec.kind, RecursionKind::Direct);
    assert_eq!(rec.recursive_calls.len(), 1);
    assert_eq!(rec.recursive_calls[0], call);
    assert_eq!(rec.base_cases.len(), 1);
    assert_eq!(rec.base_cases[0], base_ret);
}

#[test]
fn test_detect_recursion_tail() {
    let mut cpg = CodePropertyGraph::new(Language::Rust);
    let func = make_function(&mut cpg, "go");
    let ret = wf_child(&mut cpg, func, CpgNodeKind::Return);
    let call = wf_child(&mut cpg, ret, CpgNodeKind::Call { target: None, is_method: false });
    wf_child(&mut cpg, call, CpgNodeKind::Identifier { name: "go".into(), definition: None });

    let rec = ControlFlowAnalyzer::new().detect_recursion(&cpg, func).expect("tail recursion should be detected");
    assert_eq!(rec.kind, RecursionKind::Tail);
    assert_eq!(rec.recursive_calls.len(), 1);
    assert!(rec.base_cases.is_empty());
}

#[test]
fn test_detect_recursion_via_method_call() {
    let mut cpg = CodePropertyGraph::new(Language::Rust);
    let func = make_function(&mut cpg, "walk");
    let call = wf_child(&mut cpg, func, CpgNodeKind::Call { target: None, is_method: true });
    wf_child(&mut cpg, call, CpgNodeKind::MemberAccess { member: "walk".into() });
    let rec = ControlFlowAnalyzer::new().detect_recursion(&cpg, func).expect("method self-call should be detected as recursion");
    assert_eq!(rec.kind, RecursionKind::Direct);
    assert_eq!(rec.recursive_calls.len(), 1);
}

#[test]
fn a_call_wrapped_in_arithmetic_is_not_in_tail_position() {
    let mut cpg = CodePropertyGraph::new(Language::Rust);
    let func = make_function(&mut cpg, "sum");
    let ret = wf_child(&mut cpg, func, CpgNodeKind::Return);
    let add = wf_child(&mut cpg, ret, CpgNodeKind::BinaryOp { operator: "+".into() });
    let call = wf_child(&mut cpg, add, CpgNodeKind::Call { target: None, is_method: false });
    wf_child(&mut cpg, call, CpgNodeKind::Identifier { name: "sum".into(), definition: None });
    let rec = ControlFlowAnalyzer::new().detect_recursion(&cpg, func).expect("recursion");
    assert_eq!(rec.kind, RecursionKind::Direct);
}

#[test]
fn detection_on_a_non_function_or_unknown_node_is_empty() {
    let mut cpg = CodePropertyGraph::new(Language::Rust);
    let block = cpg.add_node(CpgNode::new(NodeId::new(0), CpgNodeKind::Block { scope: ScopeId::global() }, SourceRange::default()));
    assert!(ControlFlowAnalyzer::new().detect_recursion(&cpg, block).is_none());
    assert!(ControlFlowAnalyzer::new().detect_recursion(&cpg, NodeId::new(9999)).is_none());
    assert!(ControlFlowAnalyzer::new().detect_loops(&cpg, NodeId::new(9999)).is_empty());
}

fn func_with_body(cpg: &mut CodePropertyGraph) -> (NodeId, NodeId) {
    let func = make_function(cpg, "f");
    let body = wf_child(cpg, func, CpgNodeKind::Block { scope: ScopeId::global() });
    (func, body)
}

fn ident(name: &str) -> CpgNodeKind {
    CpgNodeKind::Identifier { name: name.into(), definition: None }
}

fn only_loop(cpg: &CodePropertyGraph, function: NodeId) -> LoopPattern {
    let mut loops = ControlFlowAnalyzer::new().detect_loops(cpg, function);
    assert_eq!(loops.len(), 1, "expected exactly one loop, got {loops:?}");
    loops.remove(0)
}

#[test]
fn loop_syntax_determines_the_kind() {
    for (kind, expected) in [
        (CpgNodeKind::For, LoopKind::For),
        (CpgNodeKind::While, LoopKind::While),
        (CpgNodeKind::Loop, LoopKind::Infinite),
        (CpgNodeKind::Unknown { kind: "do_statement".into() }, LoopKind::DoWhile),
    ] {
        let mut cpg = CodePropertyGraph::new(Language::Rust);
        let (func, body) = func_with_body(&mut cpg);
        wf_child(&mut cpg, body, kind.clone());
        let found = only_loop(&cpg, func);
        assert_eq!(found.kind, expected, "for node kind {kind:?}");
        assert_eq!(found.depth, 1, "a top-level loop has depth 1");
    }
    let mut cpg = CodePropertyGraph::new(Language::Rust);
    let (func, body) = func_with_body(&mut cpg);
    wf_child(&mut cpg, body, CpgNodeKind::Unknown { kind: "match_arm".into() });
    assert!(ControlFlowAnalyzer::new().detect_loops(&cpg, func).is_empty());
}

#[test]
fn depth_counts_enclosing_loops() {
    let mut cpg = CodePropertyGraph::new(Language::Rust);
    let (func, body) = func_with_body(&mut cpg);
    let mut parent = body;
    let mut headers = Vec::with_capacity(3);
    for _ in 0..3 {
        let head = wf_child(&mut cpg, parent, CpgNodeKind::For);
        headers.push(head);
        parent = wf_child(&mut cpg, head, CpgNodeKind::Block { scope: ScopeId::global() });
    }
    let loops = ControlFlowAnalyzer::new().detect_loops(&cpg, func);
    assert_eq!(loops.len(), 3);
    for (i, header) in headers.iter().enumerate() {
        let pattern = loops.iter().find(|l| l.header == *header).expect("each header is reported");
        assert_eq!(pattern.depth, i + 1, "loop {i} nests {} deep", i + 1);
    }
}

#[test]
fn for_loops_are_counted_by_range_or_iterator_witness() {
    let mut cpg = CodePropertyGraph::new(Language::Rust);
    let (func, body) = func_with_body(&mut cpg);
    let head = wf_child(&mut cpg, body, CpgNodeKind::For);
    wf_child(&mut cpg, head, CpgNodeKind::BinaryOp { operator: "..".into() });
    assert!(only_loop(&cpg, func).is_counted);

    let mut cpg = CodePropertyGraph::new(Language::Rust);
    let (func, body) = func_with_body(&mut cpg);
    let head = wf_child(&mut cpg, body, CpgNodeKind::For);
    wf_child(&mut cpg, head, CpgNodeKind::Unknown { kind: "range_expr".into() });
    assert!(only_loop(&cpg, func).is_counted);

    let mut cpg = CodePropertyGraph::new(Language::Rust);
    let (func, body) = func_with_body(&mut cpg);
    let head = wf_child(&mut cpg, body, CpgNodeKind::For);
    let call = wf_child(&mut cpg, head, CpgNodeKind::Call { target: None, is_method: true });
    wf_child(&mut cpg, call, CpgNodeKind::MemberAccess { member: "enumerate".into() });
    assert!(only_loop(&cpg, func).is_counted);

    let mut cpg = CodePropertyGraph::new(Language::Rust);
    let (func, body) = func_with_body(&mut cpg);
    let head = wf_child(&mut cpg, body, CpgNodeKind::For);
    let call = wf_child(&mut cpg, head, CpgNodeKind::Call { target: None, is_method: true });
    wf_child(&mut cpg, call, ident("lines"));
    assert!(only_loop(&cpg, func).is_counted, "`for` defaults to counted");
}

fn counted(loop_kind: CpgNodeKind, extras: &[CpgNodeKind]) -> bool {
    let mut cpg = CodePropertyGraph::new(Language::Rust);
    let (func, body) = func_with_body(&mut cpg);
    let head = wf_child(&mut cpg, body, loop_kind);
    let inner = wf_child(&mut cpg, head, CpgNodeKind::Block { scope: ScopeId::global() });
    for e in extras {
        wf_child(&mut cpg, inner, e.clone());
    }
    only_loop(&cpg, func).is_counted
}

#[test]
fn conditional_loops_need_a_comparison_and_an_induction_step() {
    let cmp = CpgNodeKind::BinaryOp { operator: "<".into() };
    let inc = CpgNodeKind::UnaryOp { operator: "++".into() };
    for loop_kind in [CpgNodeKind::While, CpgNodeKind::Unknown { kind: "do_statement".into() }] {
        assert!(counted(loop_kind.clone(), &[cmp.clone(), inc.clone()]), "comparison + increment ⇒ counted");
        assert!(!counted(loop_kind.clone(), std::slice::from_ref(&cmp)), "a comparison alone does not bound the loop");
        assert!(!counted(loop_kind.clone(), std::slice::from_ref(&inc)), "an increment alone does not bound the loop");
        assert!(!counted(loop_kind, &[]), "no witnesses ⇒ unbounded");
    }
    for op in ["<", ">", "<=", ">=", "==", "!="] {
        assert!(counted(CpgNodeKind::While, &[CpgNodeKind::BinaryOp { operator: op.into() }, inc.clone()]), "`{op}` is a comparison");
    }
    assert!(!counted(CpgNodeKind::While, &[CpgNodeKind::BinaryOp { operator: "+".into() }, inc.clone()]));
    for op in ["++", "--"] {
        assert!(counted(CpgNodeKind::While, &[cmp.clone(), CpgNodeKind::UnaryOp { operator: op.into() }]), "`{op}` is an induction step");
    }
    for op in ["+=", "-=", "*=", "/="] {
        assert!(counted(CpgNodeKind::While, &[cmp.clone(), CpgNodeKind::Assignment { operator: op.into() }]), "`{op}` is an induction step");
    }
    assert!(!counted(CpgNodeKind::While, &[cmp.clone(), CpgNodeKind::Assignment { operator: "=".into() }]));
    assert!(!counted(CpgNodeKind::While, &[cmp, CpgNodeKind::Literal { kind: LiteralKind::Integer(1) }]));
}

#[test]
fn iterator_adaptor_and_do_while_vocabularies() {
    for word in ["enumerate", "range", "take", "zip", "take_while", "char_range"] {
        for as_member in [false, true] {
            let mut cpg = CodePropertyGraph::new(Language::Rust);
            let (func, body) = func_with_body(&mut cpg);
            let head = wf_child(&mut cpg, body, CpgNodeKind::For);
            let call = wf_child(&mut cpg, head, CpgNodeKind::Call { target: None, is_method: as_member });
            let named = if as_member { CpgNodeKind::MemberAccess { member: word.into() } } else { ident(word) };
            wf_child(&mut cpg, call, named);
            assert!(only_loop(&cpg, func).is_counted, "`{word}` (member: {as_member}) is a counting adaptor");
        }
    }
    for spelling in ["do_while", "do_statement", "do_while_statement"] {
        let mut cpg = CodePropertyGraph::new(Language::Rust);
        let (func, body) = func_with_body(&mut cpg);
        wf_child(&mut cpg, body, CpgNodeKind::Unknown { kind: spelling.into() });
        assert_eq!(only_loop(&cpg, func).kind, LoopKind::DoWhile, "`{spelling}` is a do-while");
    }
    for spelling in ["range_expression", "int_range"] {
        let mut cpg = CodePropertyGraph::new(Language::Rust);
        let (func, body) = func_with_body(&mut cpg);
        let head = wf_child(&mut cpg, body, CpgNodeKind::For);
        wf_child(&mut cpg, head, CpgNodeKind::Unknown { kind: spelling.into() });
        assert!(only_loop(&cpg, func).is_counted, "`{spelling}` bounds the loop");
    }
}

#[test]
fn infinite_loops_are_never_counted() {
    let mut cpg = CodePropertyGraph::new(Language::Rust);
    let (func, body) = func_with_body(&mut cpg);
    let head = wf_child(&mut cpg, body, CpgNodeKind::Loop);
    let inner = wf_child(&mut cpg, head, CpgNodeKind::Block { scope: ScopeId::global() });
    wf_child(&mut cpg, inner, CpgNodeKind::BinaryOp { operator: "<".into() });
    wf_child(&mut cpg, inner, CpgNodeKind::UnaryOp { operator: "++".into() });
    let found = only_loop(&cpg, func);
    assert_eq!(found.kind, LoopKind::Infinite);
    assert!(!found.is_counted, "`loop` has no trip bound to read");
}

#[test]
fn mutually_recursive_functions_are_reported_as_indirect() {
    let mut cpg = CodePropertyGraph::new(Language::Rust);
    let f = make_function(&mut cpg, "f");
    let f_body = wf_child(&mut cpg, f, CpgNodeKind::Block { scope: ScopeId::global() });
    let f_if = wf_child(&mut cpg, f_body, CpgNodeKind::If);
    let f_base = wf_child(&mut cpg, f_if, CpgNodeKind::Return);
    let f_call = wf_child(&mut cpg, f_body, CpgNodeKind::Call { target: None, is_method: false });
    wf_child(&mut cpg, f_call, CpgNodeKind::Identifier { name: "g".into(), definition: None });
    let g = make_function(&mut cpg, "g");
    let g_body = wf_child(&mut cpg, g, CpgNodeKind::Block { scope: ScopeId::global() });
    let g_call = wf_child(&mut cpg, g_body, CpgNodeKind::Call { target: None, is_method: false });
    wf_child(&mut cpg, g_call, CpgNodeKind::Identifier { name: "f".into(), definition: None });

    let analyzer = ControlFlowAnalyzer::new();
    let rec = analyzer.detect_recursion(&cpg, f).expect("f is part of a mutually recursive cycle");
    assert_eq!(rec.kind, RecursionKind::Indirect);
    assert_eq!(rec.recursive_calls, vec![f_call]);
    assert_eq!(rec.base_cases, vec![f_base]);

    let rec_g = analyzer.detect_recursion(&cpg, g).expect("g is part of the same cycle");
    assert_eq!(rec_g.kind, RecursionKind::Indirect);
    assert_eq!(rec_g.recursive_calls, vec![g_call]);
    assert!(rec_g.base_cases.is_empty());
}

#[test]
fn calling_a_function_that_does_not_call_back_is_no_recursion() {
    let mut cpg = CodePropertyGraph::new(Language::Rust);
    let f = make_function(&mut cpg, "f");
    let f_call = wf_child(&mut cpg, f, CpgNodeKind::Call { target: None, is_method: false });
    wf_child(&mut cpg, f_call, CpgNodeKind::Identifier { name: "g".into(), definition: None });
    let g = make_function(&mut cpg, "g");
    let g_call = wf_child(&mut cpg, g, CpgNodeKind::Call { target: None, is_method: false });
    wf_child(&mut cpg, g_call, CpgNodeKind::Identifier { name: "h".into(), definition: None });
    let _h = make_function(&mut cpg, "h");

    assert!(ControlFlowAnalyzer::new().detect_recursion(&cpg, f).is_none());
}

#[test]
fn a_three_function_cycle_is_indirect_recursion() {
    let mut cpg = CodePropertyGraph::new(Language::Rust);
    let a = make_function(&mut cpg, "a");
    let a_call = wf_child(&mut cpg, a, CpgNodeKind::Call { target: None, is_method: false });
    wf_child(&mut cpg, a_call, CpgNodeKind::Identifier { name: "b".into(), definition: None });
    let b = make_function(&mut cpg, "b");
    let b_call = wf_child(&mut cpg, b, CpgNodeKind::Call { target: None, is_method: false });
    wf_child(&mut cpg, b_call, CpgNodeKind::Identifier { name: "c".into(), definition: None });
    let c = make_function(&mut cpg, "c");
    let c_call = wf_child(&mut cpg, c, CpgNodeKind::Call { target: None, is_method: false });
    wf_child(&mut cpg, c_call, CpgNodeKind::Identifier { name: "a".into(), definition: None });

    let rec = ControlFlowAnalyzer::new().detect_recursion(&cpg, b).expect("b lies on the cycle a -> b -> c -> a");
    assert_eq!(rec.kind, RecursionKind::Indirect);
    assert_eq!(rec.recursive_calls, vec![b_call]);
}
