use libcpg::algorithms::detection::complexity::ComplexityAnalyzer;
use libcpg::algorithms::signatures::ComplexityClass;
use libcpg::graph::{
    CodePropertyGraph, CpgEdgeKind, CpgNode, CpgNodeKind, Language, LiteralKind, MethodSignature, NodeId, ScopeId,
    SourceRange, Visibility,
};

fn create_function(cpg: &mut CodePropertyGraph, name: &str) -> NodeId {
    cpg.add_node(CpgNode::new(
        NodeId::new(0),
        CpgNodeKind::Function {
            signature: MethodSignature {
                name: name.into(),
                params: Default::default(),
                return_type: None,
                is_static: false,
                is_async: false,
                visibility: Visibility::Public,
            },
        },
        SourceRange::default(),
    ))
}

fn child(cpg: &mut CodePropertyGraph, parent: NodeId, kind: CpgNodeKind) -> NodeId {
    let mut node = CpgNode::new(NodeId::new(0), kind, SourceRange::default());
    node.parent = Some(parent);
    let id = cpg.add_node(node);
    cpg.connect(parent, id, CpgEdgeKind::AstChild);
    id
}

fn block() -> CpgNodeKind {
    CpgNodeKind::Block { scope: ScopeId::global() }
}

fn nested_loop_cpg(depth: usize) -> (CodePropertyGraph, NodeId) {
    let mut cpg = CodePropertyGraph::new(Language::Rust);
    let func = create_function(&mut cpg, "f");
    let mut parent = child(&mut cpg, func, block());
    for _ in 0..depth {
        let for_node = child(&mut cpg, parent, CpgNodeKind::For);
        parent = child(&mut cpg, for_node, block());
    }
    (cpg, func)
}

#[test]
fn test_constant_complexity() {
    let mut cpg = CodePropertyGraph::new(Language::Rust);
    let func = create_function(&mut cpg, "simple");
    let estimate = ComplexityAnalyzer::new().estimate_time_complexity(&cpg, func);
    assert_eq!(estimate.class, ComplexityClass::Constant);
    assert!(estimate.confidence_permille > 500);
}

#[test]
fn test_linear_complexity_single_loop() {
    let mut cpg = CodePropertyGraph::new(Language::Rust);
    let func = create_function(&mut cpg, "linear");
    let block_id = child(&mut cpg, func, block());
    child(&mut cpg, block_id, CpgNodeKind::For);
    let estimate = ComplexityAnalyzer::new().estimate_time_complexity(&cpg, func);
    assert_eq!(estimate.class, ComplexityClass::Linear);
}

#[test]
fn test_quadratic_complexity_nested_loops() {
    let mut cpg = CodePropertyGraph::new(Language::Rust);
    let func = create_function(&mut cpg, "quadratic");
    let block_id = child(&mut cpg, func, block());
    let outer = child(&mut cpg, block_id, CpgNodeKind::For);
    child(&mut cpg, outer, CpgNodeKind::For);
    let estimate = ComplexityAnalyzer::new().estimate_time_complexity(&cpg, func);
    assert_eq!(estimate.class, ComplexityClass::Quadratic);
}

#[test]
fn complexity_test_analyzer_creation() {
    let analyzer = ComplexityAnalyzer::new();
    let default_analyzer = ComplexityAnalyzer::default();
    let _ = format!("{:?}", analyzer);
    let _ = format!("{:?}", default_analyzer);
}

#[test]
fn test_space_constant_no_recursion_no_allocations() {
    let mut cpg = CodePropertyGraph::new(Language::Rust);
    let func = create_function(&mut cpg, "leaf");
    let _block = child(&mut cpg, func, block());
    let est = ComplexityAnalyzer::new().estimate_space_complexity(&cpg, func);
    assert_eq!(est.class, ComplexityClass::Constant);
    assert!(est.confidence_permille > 0);
    assert!(est.confidence_permille <= 1000);
}

#[test]
fn test_space_linear_direct_recursion() {
    let mut cpg = CodePropertyGraph::new(Language::Rust);
    let func = create_function(&mut cpg, "f");
    let b = child(&mut cpg, func, block());
    let call = child(&mut cpg, b, CpgNodeKind::Call { target: None, is_method: false });
    child(&mut cpg, call, CpgNodeKind::Identifier { name: "f".into(), definition: None });
    let est = ComplexityAnalyzer::new().estimate_space_complexity(&cpg, func);
    assert_eq!(est.class, ComplexityClass::Linear);
    assert_eq!(est.justification, "Direct recursion detected, stack depth estimated");
}

#[test]
fn test_space_constant_tail_recursion() {
    let mut cpg = CodePropertyGraph::new(Language::Rust);
    let func = create_function(&mut cpg, "f");
    let ret = child(&mut cpg, func, CpgNodeKind::Return);
    let call = child(&mut cpg, ret, CpgNodeKind::Call { target: None, is_method: false });
    child(&mut cpg, call, CpgNodeKind::Identifier { name: "f".into(), definition: None });
    let est = ComplexityAnalyzer::new().estimate_space_complexity(&cpg, func);
    assert_eq!(est.class, ComplexityClass::Constant);
}

#[test]
fn test_space_linear_from_array_literal_allocation() {
    let mut cpg = CodePropertyGraph::new(Language::Rust);
    let func = create_function(&mut cpg, "alloc_fn");
    let b = child(&mut cpg, func, block());
    child(&mut cpg, b, CpgNodeKind::Literal { kind: LiteralKind::Array });
    let est = ComplexityAnalyzer::new().estimate_space_complexity(&cpg, func);
    assert_eq!(est.class, ComplexityClass::Linear);
}

#[test]
fn test_space_linear_from_alloc_call() {
    let mut cpg = CodePropertyGraph::new(Language::Rust);
    let func = create_function(&mut cpg, "builder");
    let b = child(&mut cpg, func, block());
    let call = child(&mut cpg, b, CpgNodeKind::Call { target: None, is_method: false });
    child(&mut cpg, call, CpgNodeKind::Identifier { name: "make_vec".into(), definition: None });
    let est = ComplexityAnalyzer::new().estimate_space_complexity(&cpg, func);
    assert_eq!(est.class, ComplexityClass::Linear);
}

#[test]
fn complexity_is_monotone_in_nesting() {
    let analyzer = ComplexityAnalyzer::new();
    let estimates: Vec<ComplexityClass> = (0..=5)
        .map(|d| {
            let (cpg, f) = nested_loop_cpg(d);
            analyzer.estimate_time_complexity(&cpg, f).class
        })
        .collect();
    assert_eq!(estimates[0], ComplexityClass::Constant);
    for a in 0..estimates.len() {
        for b in a..estimates.len() {
            assert!(!estimates[b].is_better_than(&estimates[a]), "depth {b} vs {a}");
        }
    }
}

#[test]
fn deep_nesting_is_polynomial_with_its_depth() {
    let (cpg, f) = nested_loop_cpg(5);
    let est = ComplexityAnalyzer::new().estimate_time_complexity(&cpg, f);
    assert_eq!(est.class, ComplexityClass::Polynomial(5));
    assert_eq!(est.confidence_permille, 600);
    assert_eq!(est.justification, "Nested loops (depth 5) detected");
}

#[test]
fn halving_recursion_is_logarithmic_and_doubled_is_linearithmic() {
    let mut cpg = CodePropertyGraph::new(Language::Rust);
    let func = create_function(&mut cpg, "bsearch");
    let b = child(&mut cpg, func, block());
    child(&mut cpg, b, CpgNodeKind::Identifier { name: "mid".into(), definition: None });
    let call = child(&mut cpg, b, CpgNodeKind::Call { target: None, is_method: false });
    child(&mut cpg, call, CpgNodeKind::Identifier { name: "bsearch".into(), definition: None });
    let est = ComplexityAnalyzer::new().estimate_time_complexity(&cpg, func);
    assert_eq!(est.class, ComplexityClass::Logarithmic);

    let call2 = child(&mut cpg, b, CpgNodeKind::Call { target: None, is_method: false });
    child(&mut cpg, call2, CpgNodeKind::Identifier { name: "bsearch".into(), definition: None });
    let est = ComplexityAnalyzer::new().estimate_time_complexity(&cpg, func);
    assert_eq!(est.class, ComplexityClass::Linearithmic);
}

#[test]
fn division_by_two_is_a_halving_witness() {
    let mut cpg = CodePropertyGraph::new(Language::Rust);
    let func = create_function(&mut cpg, "msort");
    let b = child(&mut cpg, func, block());
    let div = child(&mut cpg, b, CpgNodeKind::BinaryOp { operator: "/".into() });
    child(&mut cpg, div, CpgNodeKind::Identifier { name: "n".into(), definition: None });
    child(&mut cpg, div, CpgNodeKind::Literal { kind: LiteralKind::Integer(2) });
    for _ in 0..3 {
        let call = child(&mut cpg, b, CpgNodeKind::Call { target: None, is_method: false });
        child(&mut cpg, call, CpgNodeKind::Identifier { name: "msort".into(), definition: None });
    }
    let est = ComplexityAnalyzer::new().estimate_time_complexity(&cpg, func);
    assert_eq!(est.class, ComplexityClass::Polynomial(3));
    assert_eq!(est.justification, "Divide-and-conquer with 3 recursive calls");
}

#[test]
fn plain_binary_recursion_is_exponential() {
    let mut cpg = CodePropertyGraph::new(Language::Rust);
    let func = create_function(&mut cpg, "fib");
    let b = child(&mut cpg, func, block());
    for _ in 0..2 {
        let call = child(&mut cpg, b, CpgNodeKind::Call { target: None, is_method: false });
        child(&mut cpg, call, CpgNodeKind::Identifier { name: "fib".into(), definition: None });
    }
    let est = ComplexityAnalyzer::new().estimate_time_complexity(&cpg, func);
    assert_eq!(est.class, ComplexityClass::Exponential);
    assert_eq!(est.confidence_permille, 700);
}

#[test]
fn linear_recursion_confidence_depends_on_the_base_case() {
    let mut cpg = CodePropertyGraph::new(Language::Rust);
    let func = create_function(&mut cpg, "walk");
    let b = child(&mut cpg, func, block());
    let call = child(&mut cpg, b, CpgNodeKind::Call { target: None, is_method: false });
    child(&mut cpg, call, CpgNodeKind::Identifier { name: "walk".into(), definition: None });
    let est = ComplexityAnalyzer::new().estimate_time_complexity(&cpg, func);
    assert_eq!(est.class, ComplexityClass::Linear);
    assert_eq!(est.confidence_permille, 400);
    let guard = child(&mut cpg, b, CpgNodeKind::If);
    child(&mut cpg, guard, CpgNodeKind::Return);
    let est = ComplexityAnalyzer::new().estimate_time_complexity(&cpg, func);
    assert_eq!(est.confidence_permille, 700);
}
