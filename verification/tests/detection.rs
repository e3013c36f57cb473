use libcpg::algorithms::detection::complexity::ComplexityAnalyzer;
use libcpg::algorithms::detection::control_flow::ControlFlowAnalyzer;
use libcpg::algorithms::detection::{AlgorithmDetector, DefaultAlgorithmDetector, DetectedAlgorithm};
use libcpg::algorithms::families::AlgorithmFamily;
use libcpg::algorithms::signatures::{AlgorithmSignature, ComplexityClass, LoopBounds, SigLoopKind};
use libcpg::graph::{
    CodePropertyGraph, CpgEdgeKind, CpgNode, CpgNodeKind, Language, LiteralKind, MethodSignature, NodeId, ScopeId,
    SourceRange, Visibility,
};

fn make_function(cpg: &mut CodePropertyGraph, name: &str) -> NodeId {
    cpg.add_node(CpgNode::new(
        NodeId::new(0),
        CpgNodeKind::Function {
            signature: MethodSignature {
                name: name.into(),
                params: Default::default(),
                return_type: None,
                is_static: false,
                is_async: false,
                visibility: Visibility::Public,
            },
        },
        SourceRange::default(),
    ))
}

fn wf_child(cpg: &mut CodePropertyGraph, parent: NodeId, kind: CpgNodeKind) -> NodeId {
    let mut node = CpgNode::new(NodeId::new(0), kind, SourceRange::default());
    node.parent = Some(parent);
    let id = cpg.add_node(node);
    cpg.connect(parent, id, CpgEdgeKind::AstChild);
    id
}

fn block() -> CpgNodeKind {
    CpgNodeKind::Block { scope: ScopeId::global() }
}

fn ident(name: &str) -> CpgNodeKind {
    CpgNodeKind::Identifier { name: name.into(), definition: None }
}

fn member(name: &str) -> CpgNodeKind {
    CpgNodeKind::MemberAccess { member: name.into() }
}

fn binop(op: &str) -> CpgNodeKind {
    CpgNodeKind::BinaryOp { operator: op.into() }
}

fn assign(op: &str) -> CpgNodeKind {
    CpgNodeKind::Assignment { operator: op.into() }
}

fn int_lit(v: i64) -> CpgNodeKind {
    CpgNodeKind::Literal { kind: LiteralKind::Integer(v) }
}

fn call() -> CpgNodeKind {
    CpgNodeKind::Call { target: None, is_method: false }
}

struct Scaffold {
    cpg: CodePropertyGraph,
    func: NodeId,
    body: NodeId,
}

fn scaffold(name: &str) -> Scaffold {
    let mut cpg = CodePropertyGraph::new(Language::Rust);
    let func = make_function(&mut cpg, name);
    let body = wf_child(&mut cpg, func, block());
    Scaffold { cpg, func, body }
}

fn for_loop(cpg: &mut CodePropertyGraph, parent: NodeId, f: impl FnOnce(&mut CodePropertyGraph, NodeId)) -> NodeId {
    let head = wf_child(cpg, parent, CpgNodeKind::For);
    wf_child(cpg, head, ident("i"));
    let body = wf_child(cpg, head, block());
    f(cpg, body);
    head
}

fn comparison(cpg: &mut CodePropertyGraph, parent: NodeId) -> NodeId {
    let cmp = wf_child(cpg, parent, binop("<"));
    wf_child(cpg, cmp, ident("a"));
    wf_child(cpg, cmp, ident("b"));
    cmp
}

fn families(found: &[DetectedAlgorithm]) -> Vec<AlgorithmFamily> {
    found.iter().map(|d| d.family).collect()
}

fn find(found: &[DetectedAlgorithm], family: AlgorithmFamily) -> Option<&DetectedAlgorithm> {
    found.iter().find(|d| d.family == family)
}

fn function_naming(name: &str) -> Scaffold {
    let mut s = scaffold("f");
    let cpg = &mut s.cpg;
    wf_child(cpg, s.body, ident(name));
    s
}

fn build_bubble_sort_cpg() -> (CodePropertyGraph, NodeId) {
    let mut cpg = CodePropertyGraph::new(Language::Rust);
    let func = make_function(&mut cpg, "bubble");
    let body = wf_child(&mut cpg, func, block());
    let outer = wf_child(&mut cpg, body, CpgNodeKind::For);
    let outer_body = wf_child(&mut cpg, outer, block());
    let inner = wf_child(&mut cpg, outer_body, CpgNodeKind::For);
    let inner_body = wf_child(&mut cpg, inner, block());
    wf_child(&mut cpg, inner_body, binop(">"));
    wf_child(&mut cpg, inner_body, assign("="));
    wf_child(&mut cpg, inner_body, assign("="));
    wf_child(&mut cpg, inner_body, assign("="));
    let plus = wf_child(&mut cpg, inner_body, binop("+"));
    wf_child(&mut cpg, plus, int_lit(1));
    wf_child(&mut cpg, inner_body, CpgNodeKind::IndexAccess);
    (cpg, func)
}

#[test]
fn test_detector_creation() {
    let detector = DefaultAlgorithmDetector::new().with_min_confidence(700);
    assert_eq!(detector.min_confidence_permille, 700);
    assert!(!detector.supported_families().is_empty());
}

#[test]
fn test_detected_algorithm() {
    let algo = DetectedAlgorithm::new(AlgorithmFamily::Sorting, NodeId::new(1), 900)
        .with_name("quicksort")
        .with_key_node(NodeId::new(2));
    assert_eq!(algo.family, AlgorithmFamily::Sorting);
    assert_eq!(algo.name, Some("quicksort".to_string()));
    assert_eq!(algo.key_nodes.len(), 1);
}

#[test]
fn test_detected_algorithm_with_signature() {
    let sig = AlgorithmSignature::new();
    let algo = DetectedAlgorithm::new(AlgorithmFamily::Searching, NodeId::new(4), 600).with_signature(sig);
    assert!(algo.signature.time_complexity.is_none());
    assert_eq!(algo.function, NodeId::new(4));
}

#[test]
fn test_detect_bubble_sort() {
    let (cpg, func) = build_bubble_sort_cpg();
    let results = DefaultAlgorithmDetector::new().detect(&cpg, func);
    assert!(!results.is_empty(), "expected a detection");
    let sort = results.iter().find(|r| r.family == AlgorithmFamily::Sorting).expect("sorting family should be detected");
    assert_eq!(sort.name.as_deref(), Some("Bubble Sort"));
    assert!(sort.confidence_permille >= 500);
    let sig = &sort.signature;
    assert_eq!(sig.time_complexity.as_ref().expect("time complexity").class, ComplexityClass::Quadratic);
    assert_eq!(sig.loop_structure.as_ref().expect("loop structure").max_depth, 2);
}

#[test]
fn test_detect_binary_search() {
    let mut cpg = CodePropertyGraph::new(Language::Rust);
    let func = make_function(&mut cpg, "binary_search");
    let body = wf_child(&mut cpg, func, block());
    wf_child(&mut cpg, body, ident("mid"));
    wf_child(&mut cpg, body, binop("<"));
    let c = wf_child(&mut cpg, body, call());
    wf_child(&mut cpg, c, ident("binary_search"));
    let results = DefaultAlgorithmDetector::new().detect(&cpg, func);
    let search = results.iter().find(|r| r.family == AlgorithmFamily::Searching).expect("searching family should be detected");
    assert_eq!(search.name.as_deref(), Some("Binary Search"));
    assert!(results.iter().any(|r| r.family == AlgorithmFamily::DivideAndConquer));
    for w in results.windows(2) {
        assert!(w[0].confidence_permille >= w[1].confidence_permille);
    }
}

#[test]
fn test_detect_bfs_graph_traversal() {
    let mut cpg = CodePropertyGraph::new(Language::Rust);
    let func = make_function(&mut cpg, "bfs");
    let body = wf_child(&mut cpg, func, block());
    wf_child(&mut cpg, body, ident("visited"));
    wf_child(&mut cpg, body, ident("queue"));
    let results = DefaultAlgorithmDetector::new().detect(&cpg, func);
    let g = results.iter().find(|r| r.family == AlgorithmFamily::GraphTraversal).expect("graph traversal should be detected");
    assert_eq!(g.name.as_deref(), Some("BFS"));
    assert!(g.confidence_permille >= 500);
}

#[test]
fn test_detect_dynamic_programming() {
    let mut cpg = CodePropertyGraph::new(Language::Rust);
    let func = make_function(&mut cpg, "knapsack");
    let body = wf_child(&mut cpg, func, block());
    wf_child(&mut cpg, body, ident("memo"));
    let outer = wf_child(&mut cpg, body, CpgNodeKind::For);
    let outer_body = wf_child(&mut cpg, outer, block());
    let inner = wf_child(&mut cpg, outer_body, CpgNodeKind::For);
    wf_child(&mut cpg, inner, block());
    let results = DefaultAlgorithmDetector::new().detect(&cpg, func);
    let dp = results
        .iter()
        .find(|r| r.family == AlgorithmFamily::DynamicProgramming)
        .expect("dynamic programming should be detected");
    assert!(dp.confidence_permille >= 700);
}

#[test]
fn test_detect_respects_min_confidence() {
    let (cpg, func) = build_bubble_sort_cpg();
    let strict = DefaultAlgorithmDetector::new().with_min_confidence(750);
    assert!(strict.detect(&cpg, func).is_empty());
    let lenient = DefaultAlgorithmDetector::new();
    assert!(!lenient.detect(&cpg, func).is_empty());
}

#[test]
fn test_detect_empty_function_yields_nothing() {
    let mut cpg = CodePropertyGraph::new(Language::Rust);
    let func = make_function(&mut cpg, "noop");
    wf_child(&mut cpg, func, block());
    let results = DefaultAlgorithmDetector::new().detect(&cpg, func);
    assert!(results.is_empty());
}

#[test]
fn test_supported_families_membership() {
    let det = DefaultAlgorithmDetector::new();
    let fams = det.supported_families();
    assert!(fams.contains(&AlgorithmFamily::Sorting));
    assert!(fams.contains(&AlgorithmFamily::Searching));
    assert!(fams.contains(&AlgorithmFamily::GraphTraversal));
    assert!(fams.contains(&AlgorithmFamily::DynamicProgramming));
    assert!(fams.contains(&AlgorithmFamily::DivideAndConquer));
}

#[test]
fn bubble_sort_is_recognized_from_adjacent_swaps() {
    let mut s = scaffold("sort");
    let cpg = &mut s.cpg;
    for_loop(cpg, s.body, |cpg, outer_body| {
        for_loop(cpg, outer_body, |cpg, inner| {
            comparison(cpg, inner);
            wf_child(cpg, inner, CpgNodeKind::IndexAccess);
            for _ in 0..3 {
                wf_child(cpg, inner, assign("="));
            }
            let plus = wf_child(cpg, inner, binop("+"));
            wf_child(cpg, plus, ident("j"));
            wf_child(cpg, plus, int_lit(1));
        });
    });
    let found = DefaultAlgorithmDetector::new().detect(&s.cpg, s.func);
    let sorting = find(&found, AlgorithmFamily::Sorting).expect("a sorting detection");
    assert_eq!(sorting.name.as_deref(), Some("Bubble Sort"));
    assert_eq!(sorting.confidence_permille, 700);
    let sig = &sorting.signature;
    let loops = sig.loop_structure.as_ref().expect("loop structure");
    assert_eq!(loops.loop_count, 2);
    assert_eq!(loops.max_depth, 2);
    assert!(matches!(sig.time_complexity.as_ref().map(|c| &c.class), Some(ComplexityClass::Quadratic)));
}

#[test]
fn selection_sort_is_recognized_from_non_adjacent_swaps() {
    let mut s = scaffold("sort");
    let cpg = &mut s.cpg;
    for_loop(cpg, s.body, |cpg, outer_body| {
        for_loop(cpg, outer_body, |cpg, inner| {
            comparison(cpg, inner);
            let c = wf_child(cpg, inner, call());
            wf_child(cpg, c, ident("swap"));
        });
    });
    let found = DefaultAlgorithmDetector::new().detect(&s.cpg, s.func);
    let sorting = find(&found, AlgorithmFamily::Sorting).expect("a sorting detection");
    assert_eq!(sorting.name.as_deref(), Some("Selection Sort"));
    assert_eq!(sorting.confidence_permille, 600);
}

#[test]
fn insertion_sort_is_recognized_from_indexing_without_swaps() {
    let mut s = scaffold("sort");
    let cpg = &mut s.cpg;
    for_loop(cpg, s.body, |cpg, outer_body| {
        for_loop(cpg, outer_body, |cpg, inner| {
            comparison(cpg, inner);
            wf_child(cpg, inner, CpgNodeKind::IndexAccess);
        });
    });
    let found = DefaultAlgorithmDetector::new().detect(&s.cpg, s.func);
    let sorting = find(&found, AlgorithmFamily::Sorting).expect("a sorting detection");
    assert_eq!(sorting.name.as_deref(), Some("Insertion Sort"));
}

#[test]
fn quadratic_without_witnesses_is_an_unnamed_candidate() {
    let mut s = scaffold("sort");
    let cpg = &mut s.cpg;
    for_loop(cpg, s.body, |cpg, outer_body| {
        for_loop(cpg, outer_body, |cpg, inner| {
            comparison(cpg, inner);
        });
    });
    let found = DefaultAlgorithmDetector::new().detect(&s.cpg, s.func);
    let sorting = find(&found, AlgorithmFamily::Sorting).expect("a sorting detection");
    assert_eq!(sorting.name, None, "no sub-family can be named");
    assert_eq!(sorting.confidence_permille, 500);
}

#[test]
fn no_comparison_means_no_sorting_detection() {
    let mut s = scaffold("sort");
    let cpg = &mut s.cpg;
    for_loop(cpg, s.body, |cpg, outer_body| {
        for_loop(cpg, outer_body, |cpg, inner| {
            wf_child(cpg, inner, CpgNodeKind::IndexAccess);
        });
    });
    let found = DefaultAlgorithmDetector::new().detect(&s.cpg, s.func);
    assert!(find(&found, AlgorithmFamily::Sorting).is_none(), "a comparison is a necessary witness");
}

#[test]
fn linear_search_is_recognized_from_an_early_return_in_a_loop() {
    let mut s = scaffold("find");
    let cpg = &mut s.cpg;
    for_loop(cpg, s.body, |cpg, body| {
        let guard = wf_child(cpg, body, CpgNodeKind::If);
        comparison(cpg, guard);
        let then = wf_child(cpg, guard, block());
        wf_child(cpg, then, CpgNodeKind::Return);
    });
    let found = DefaultAlgorithmDetector::new().detect(&s.cpg, s.func);
    let search = find(&found, AlgorithmFamily::Searching).expect("a searching detection");
    assert_eq!(search.name.as_deref(), Some("Linear Search"));
    assert_eq!(search.confidence_permille, 700);
}

#[test]
fn linear_scan_without_early_exit_is_unnamed() {
    let mut s = scaffold("find");
    let cpg = &mut s.cpg;
    for_loop(cpg, s.body, |cpg, body| {
        comparison(cpg, body);
    });
    wf_child(cpg, s.body, CpgNodeKind::Return);
    let found = DefaultAlgorithmDetector::new().detect(&s.cpg, s.func);
    let search = find(&found, AlgorithmFamily::Searching).expect("a searching detection");
    assert_eq!(search.name, None);
    assert_eq!(search.confidence_permille, 500);
}

#[test]
fn binary_search_is_recognized_from_halving_recursion() {
    let mut s = scaffold("bsearch");
    let cpg = &mut s.cpg;
    let guard = wf_child(cpg, s.body, CpgNodeKind::If);
    comparison(cpg, guard);
    let then = wf_child(cpg, guard, block());
    wf_child(cpg, then, CpgNodeKind::Return);
    let div = wf_child(cpg, s.body, binop("/"));
    wf_child(cpg, div, ident("mid"));
    wf_child(cpg, div, int_lit(2));
    let c = wf_child(cpg, s.body, call());
    wf_child(cpg, c, ident("bsearch"));
    let found = DefaultAlgorithmDetector::new().detect(&s.cpg, s.func);
    let search = find(&found, AlgorithmFamily::Searching).expect("a searching detection");
    assert_eq!(search.name.as_deref(), Some("Binary Search"));
    assert_eq!(search.confidence_permille, 800);
    let dc = find(&found, AlgorithmFamily::DivideAndConquer).expect("a D&C detection");
    assert_eq!(dc.confidence_permille, 600, "one recursive call ⇒ 0.6");
    for w in found.windows(2) {
        assert!(w[0].confidence_permille >= w[1].confidence_permille);
    }
    assert_eq!(families(&found)[0], AlgorithmFamily::Searching);
}

#[test]
fn two_halving_calls_are_linearithmic() {
    let mut s = scaffold("msort");
    let cpg = &mut s.cpg;
    let div = wf_child(cpg, s.body, binop("/"));
    wf_child(cpg, div, ident("lo"));
    wf_child(cpg, div, int_lit(2));
    for _ in 0..2 {
        let c = wf_child(cpg, s.body, call());
        wf_child(cpg, c, ident("msort"));
    }
    let est = ComplexityAnalyzer::new().estimate_time_complexity(&s.cpg, s.func);
    assert!(matches!(est.class, ComplexityClass::Linearithmic), "got {est:?}");
    let found = DefaultAlgorithmDetector::new().detect(&s.cpg, s.func);
    let dc = find(&found, AlgorithmFamily::DivideAndConquer).expect("a D&C detection");
    assert_eq!(dc.confidence_permille, 700, "two recursive calls ⇒ 0.7");
}

#[test]
fn many_halving_calls_are_polynomial() {
    let mut s = scaffold("multi");
    let cpg = &mut s.cpg;
    wf_child(cpg, s.body, ident("pivot"));
    for _ in 0..3 {
        let c = wf_child(cpg, s.body, call());
        wf_child(cpg, c, ident("multi"));
    }
    let est = ComplexityAnalyzer::new().estimate_time_complexity(&s.cpg, s.func);
    assert!(matches!(est.class, ComplexityClass::Polynomial(3)), "got {est:?}");
}

#[test]
fn binary_recursion_without_halving_is_exponential() {
    let mut s = scaffold("fib");
    let cpg = &mut s.cpg;
    for _ in 0..2 {
        let c = wf_child(cpg, s.body, call());
        wf_child(cpg, c, ident("fib"));
    }
    let est = ComplexityAnalyzer::new().estimate_time_complexity(&s.cpg, s.func);
    assert!(matches!(est.class, ComplexityClass::Exponential), "got {est:?}");
    assert_eq!(est.confidence_permille, 700);
}

#[test]
fn many_non_halving_calls_are_exponential_with_less_confidence() {
    let mut s = scaffold("branchy");
    let cpg = &mut s.cpg;
    for _ in 0..3 {
        let c = wf_child(cpg, s.body, call());
        wf_child(cpg, c, ident("branchy"));
    }
    let est = ComplexityAnalyzer::new().estimate_time_complexity(&s.cpg, s.func);
    assert!(matches!(est.class, ComplexityClass::Exponential));
    assert_eq!(est.confidence_permille, 600);
}

#[test]
fn tail_recursion_is_linear_time_and_constant_space() {
    let mut s = scaffold("walk");
    let cpg = &mut s.cpg;
    let ret = wf_child(cpg, s.body, CpgNodeKind::Return);
    let c = wf_child(cpg, ret, call());
    wf_child(cpg, c, member("walk"));
    let analyzer = ComplexityAnalyzer::new();
    let time = analyzer.estimate_time_complexity(&s.cpg, s.func);
    assert!(matches!(time.class, ComplexityClass::Linear));
    assert_eq!(time.confidence_permille, 800);
    let space = analyzer.estimate_space_complexity(&s.cpg, s.func);
    assert!(matches!(space.class, ComplexityClass::Constant), "tail calls need no stack growth");
}

#[test]
fn a_call_wrapped_in_arithmetic_is_not_a_tail_call() {
    let mut s = scaffold("sum");
    let cpg = &mut s.cpg;
    let ret = wf_child(cpg, s.body, CpgNodeKind::Return);
    let plus = wf_child(cpg, ret, binop("+"));
    wf_child(cpg, plus, ident("n"));
    let c = wf_child(cpg, plus, call());
    wf_child(cpg, c, ident("sum"));
    let space = ComplexityAnalyzer::new().estimate_space_complexity(&s.cpg, s.func);
    assert!(matches!(space.class, ComplexityClass::Linear), "non-tail recursion grows the stack");
}

#[test]
fn allocation_witnesses_drive_space_complexity() {
    let mut s = scaffold("build");
    let cpg = &mut s.cpg;
    let c = wf_child(cpg, s.body, call());
    wf_child(cpg, c, member("alloc_buffer"));
    let est = ComplexityAnalyzer::new().estimate_space_complexity(&s.cpg, s.func);
    assert!(matches!(est.class, ComplexityClass::Linear), "got {est:?}");
    let plain = scaffold("plain");
    let est = ComplexityAnalyzer::new().estimate_space_complexity(&plain.cpg, plain.func);
    assert!(matches!(est.class, ComplexityClass::Constant));
}

#[test]
fn graph_traversals_are_told_apart_by_their_frontier() {
    let bfs = {
        let mut s = scaffold("bfs");
        let cpg = &mut s.cpg;
        wf_child(cpg, s.body, ident("visited"));
        wf_child(cpg, s.body, ident("queue"));
        DefaultAlgorithmDetector::new().detect(&s.cpg, s.func)
    };
    let g = find(&bfs, AlgorithmFamily::GraphTraversal).expect("a graph detection");
    assert_eq!(g.name.as_deref(), Some("BFS"));
    assert_eq!(g.confidence_permille, 700);

    let dfs = {
        let mut s = scaffold("dfs");
        let cpg = &mut s.cpg;
        wf_child(cpg, s.body, ident("visited"));
        wf_child(cpg, s.body, member("stack"));
        DefaultAlgorithmDetector::new().detect(&s.cpg, s.func)
    };
    let g = find(&dfs, AlgorithmFamily::GraphTraversal).expect("a graph detection");
    assert_eq!(g.name.as_deref(), Some("DFS"));
    assert_eq!(g.confidence_permille, 600);

    let while_dfs = {
        let mut s = scaffold("dfs2");
        let cpg = &mut s.cpg;
        wf_child(cpg, s.body, ident("visited_set"));
        let w = wf_child(cpg, s.body, CpgNodeKind::While);
        wf_child(cpg, w, ident("more"));
        wf_child(cpg, w, block());
        DefaultAlgorithmDetector::new().detect(&s.cpg, s.func)
    };
    assert_eq!(
        find(&while_dfs, AlgorithmFamily::GraphTraversal).expect("a graph detection").name.as_deref(),
        Some("DFS")
    );

    let no_visited = {
        let mut s = scaffold("plain");
        let cpg = &mut s.cpg;
        wf_child(cpg, s.body, ident("queue"));
        DefaultAlgorithmDetector::new().detect(&s.cpg, s.func)
    };
    assert!(find(&no_visited, AlgorithmFamily::GraphTraversal).is_none());

    let no_frontier = {
        let mut s = scaffold("plain");
        let cpg = &mut s.cpg;
        wf_child(cpg, s.body, ident("visited"));
        DefaultAlgorithmDetector::new().detect(&s.cpg, s.func)
    };
    assert!(find(&no_frontier, AlgorithmFamily::GraphTraversal).is_none());
}

#[test]
fn dynamic_programming_confidence_tracks_the_loop_nesting() {
    let tabulated = {
        let mut s = scaffold("dp");
        let cpg = &mut s.cpg;
        wf_child(cpg, s.body, ident("memo"));
        for_loop(cpg, s.body, |cpg, outer| {
            for_loop(cpg, outer, |_, _| {});
        });
        DefaultAlgorithmDetector::new().detect(&s.cpg, s.func)
    };
    let dp = find(&tabulated, AlgorithmFamily::DynamicProgramming).expect("a DP detection");
    assert_eq!(dp.confidence_permille, 700);

    let flat = {
        let mut s = scaffold("dp");
        let cpg = &mut s.cpg;
        wf_child(cpg, s.body, ident("memo"));
        DefaultAlgorithmDetector::new().detect(&s.cpg, s.func)
    };
    let dp = find(&flat, AlgorithmFamily::DynamicProgramming).expect("a DP detection");
    assert_eq!(dp.confidence_permille, 500);

    let plain = scaffold("plain");
    let found = DefaultAlgorithmDetector::new().detect(&plain.cpg, plain.func);
    assert!(find(&found, AlgorithmFamily::DynamicProgramming).is_none());
}

#[test]
fn min_confidence_filters_and_families_are_advertised() {
    let mut s = scaffold("dp");
    let cpg = &mut s.cpg;
    wf_child(cpg, s.body, ident("memo"));
    let permissive = DefaultAlgorithmDetector::new();
    let found = permissive.detect(&s.cpg, s.func);
    assert!(!found.is_empty());
    for d in &found {
        assert!(permissive.supported_families().contains(&d.family), "{:?} must be an advertised family", d.family);
        assert!(d.confidence_permille >= 500);
        assert!(d.confidence_permille <= 1000);
        assert_eq!(d.function, s.func);
    }
    let strict = DefaultAlgorithmDetector::new().with_min_confidence(990);
    assert!(strict.detect(&s.cpg, s.func).is_empty(), "nothing clears a 0.99 threshold");
}

#[test]
fn every_queue_word_is_recognized() {
    for word in ["queue", "push_back", "pop_front", "deque", "enqueue"] {
        let mut s = scaffold("bfs");
        let cpg = &mut s.cpg;
        wf_child(cpg, s.body, ident("visited"));
        wf_child(cpg, s.body, ident(word));
        let found = DefaultAlgorithmDetector::new().detect(&s.cpg, s.func);
        assert_eq!(
            find(&found, AlgorithmFamily::GraphTraversal)
                .unwrap_or_else(|| panic!("`{word}` must mark a queue"))
                .name
                .as_deref(),
            Some("BFS"),
            "`{word}` is a queue word"
        );
    }
}

#[test]
fn every_stack_word_is_recognized() {
    for word in ["stack", "push", "pop", "my_stack"] {
        let mut s = scaffold("dfs");
        let cpg = &mut s.cpg;
        wf_child(cpg, s.body, ident("visited"));
        wf_child(cpg, s.body, member(word));
        let found = DefaultAlgorithmDetector::new().detect(&s.cpg, s.func);
        assert_eq!(
            find(&found, AlgorithmFamily::GraphTraversal)
                .unwrap_or_else(|| panic!("`{word}` must mark a stack"))
                .name
                .as_deref(),
            Some("DFS"),
            "`{word}` is a stack word"
        );
    }
}

#[test]
fn every_visited_word_is_recognized() {
    for word in ["visited", "seen", "was_visited", "already_seen"] {
        let mut s = scaffold("bfs");
        let cpg = &mut s.cpg;
        wf_child(cpg, s.body, ident(word));
        wf_child(cpg, s.body, ident("queue"));
        let found = DefaultAlgorithmDetector::new().detect(&s.cpg, s.func);
        assert!(find(&found, AlgorithmFamily::GraphTraversal).is_some(), "`{word}` is a visited-set word");
    }
    let s = function_naming("frobnicate");
    let found = DefaultAlgorithmDetector::new().detect(&s.cpg, s.func);
    assert!(find(&found, AlgorithmFamily::GraphTraversal).is_none());
}

#[test]
fn every_memo_table_word_is_recognized() {
    for word in ["memo", "dp", "cache", "table", "f", "dp_table", "memoized"] {
        let s = function_naming(word);
        let found = DefaultAlgorithmDetector::new().detect(&s.cpg, s.func);
        assert!(find(&found, AlgorithmFamily::DynamicProgramming).is_some(), "`{word}` is a memo-table word");
    }
    let s = function_naming("frobnicate");
    let found = DefaultAlgorithmDetector::new().detect(&s.cpg, s.func);
    assert!(find(&found, AlgorithmFamily::DynamicProgramming).is_none());
}

#[test]
fn a_swap_is_witnessed_by_either_rule() {
    let by_assignments = {
        let mut s = scaffold("sort");
        let cpg = &mut s.cpg;
        for_loop(cpg, s.body, |cpg, outer| {
            for_loop(cpg, outer, |cpg, inner| {
                comparison(cpg, inner);
                for _ in 0..3 {
                    wf_child(cpg, inner, assign("="));
                }
            });
        });
        DefaultAlgorithmDetector::new().detect(&s.cpg, s.func)
    };
    assert_eq!(
        find(&by_assignments, AlgorithmFamily::Sorting).expect("a sorting detection").name.as_deref(),
        Some("Selection Sort"),
        "three assignments are a swap"
    );

    let too_few = {
        let mut s = scaffold("sort");
        let cpg = &mut s.cpg;
        for_loop(cpg, s.body, |cpg, outer| {
            for_loop(cpg, outer, |cpg, inner| {
                comparison(cpg, inner);
                wf_child(cpg, inner, CpgNodeKind::IndexAccess);
                for _ in 0..2 {
                    wf_child(cpg, inner, assign("="));
                }
            });
        });
        DefaultAlgorithmDetector::new().detect(&s.cpg, s.func)
    };
    assert_eq!(
        find(&too_few, AlgorithmFamily::Sorting).expect("a sorting detection").name.as_deref(),
        Some("Insertion Sort"),
        "two assignments are not a swap"
    );

    for word in ["swap", "swap_unchecked", "SWAP"] {
        let mut s = scaffold("sort");
        let cpg = &mut s.cpg;
        for_loop(cpg, s.body, |cpg, outer| {
            for_loop(cpg, outer, |cpg, inner| {
                comparison(cpg, inner);
                let c = wf_child(cpg, inner, call());
                wf_child(cpg, c, member(word));
            });
        });
        let found = DefaultAlgorithmDetector::new().detect(&s.cpg, s.func);
        assert!(
            find(&found, AlgorithmFamily::Sorting).expect("a sorting detection").name.is_some(),
            "`{word}` names a swap"
        );
    }
}

#[test]
fn every_midpoint_witness_is_recognized() {
    for (op, literal) in [("/", 2i64), (">>", 2)] {
        let mut s = scaffold("bsearch");
        let cpg = &mut s.cpg;
        let guard = wf_child(cpg, s.body, CpgNodeKind::If);
        comparison(cpg, guard);
        let then = wf_child(cpg, guard, block());
        wf_child(cpg, then, CpgNodeKind::Return);
        let div = wf_child(cpg, s.body, binop(op));
        wf_child(cpg, div, ident("lo"));
        wf_child(cpg, div, int_lit(literal));
        let c = wf_child(cpg, s.body, call());
        wf_child(cpg, c, ident("bsearch"));
        let found = DefaultAlgorithmDetector::new().detect(&s.cpg, s.func);
        assert_eq!(
            find(&found, AlgorithmFamily::Searching)
                .unwrap_or_else(|| panic!("`x {op} {literal}` must halve"))
                .name
                .as_deref(),
            Some("Binary Search"),
            "`x {op} {literal}` is a halving witness"
        );
    }
    for word in ["mid", "middle", "pivot", "half_len", "MID"] {
        let mut s = scaffold("dc");
        let cpg = &mut s.cpg;
        wf_child(cpg, s.body, ident(word));
        let c = wf_child(cpg, s.body, call());
        wf_child(cpg, c, ident("dc"));
        let est = ComplexityAnalyzer::new().estimate_time_complexity(&s.cpg, s.func);
        assert!(matches!(est.class, ComplexityClass::Logarithmic), "`{word}` is a halving witness, got {est:?}");
    }
    for (op, literal) in [("/", 7i64), ("/", 1), (">>", 1), ("*", 2)] {
        let mut s = scaffold("dc");
        let cpg = &mut s.cpg;
        let div = wf_child(cpg, s.body, binop(op));
        wf_child(cpg, div, ident("n"));
        wf_child(cpg, div, int_lit(literal));
        let c = wf_child(cpg, s.body, call());
        wf_child(cpg, c, ident("dc"));
        let est = ComplexityAnalyzer::new().estimate_time_complexity(&s.cpg, s.func);
        assert!(matches!(est.class, ComplexityClass::Linear), "`n {op} {literal}` is not a halving, got {est:?}");
    }
}

#[test]
fn every_allocation_witness_is_recognized() {
    for word in ["vec", "new", "alloc", "create", "clone", "collect", "vector_new"] {
        let mut s = scaffold("build");
        let cpg = &mut s.cpg;
        let c = wf_child(cpg, s.body, call());
        wf_child(cpg, c, ident(word));
        let est = ComplexityAnalyzer::new().estimate_space_complexity(&s.cpg, s.func);
        assert!(matches!(est.class, ComplexityClass::Linear), "`{word}` allocates, got {est:?}");
    }
    let mut s = scaffold("build");
    let cpg = &mut s.cpg;
    wf_child(cpg, s.body, CpgNodeKind::Literal { kind: LiteralKind::Array });
    let est = ComplexityAnalyzer::new().estimate_space_complexity(&s.cpg, s.func);
    assert!(matches!(est.class, ComplexityClass::Linear));
    for word in ["log", "with_capacity"] {
        let mut s = scaffold("noop");
        let cpg = &mut s.cpg;
        let c = wf_child(cpg, s.body, call());
        wf_child(cpg, c, ident(word));
        let est = ComplexityAnalyzer::new().estimate_space_complexity(&s.cpg, s.func);
        assert!(matches!(est.class, ComplexityClass::Constant), "`{word}`: got {est:?}");
    }
}

#[test]
fn the_threshold_suppresses_each_family_independently() {
    let mut s = scaffold("everything");
    let cpg = &mut s.cpg;
    wf_child(cpg, s.body, ident("visited"));
    wf_child(cpg, s.body, ident("queue"));
    wf_child(cpg, s.body, ident("memo"));
    for_loop(cpg, s.body, |cpg, outer| {
        for_loop(cpg, outer, |cpg, inner| {
            comparison(cpg, inner);
            wf_child(cpg, inner, CpgNodeKind::IndexAccess);
            let guard = wf_child(cpg, inner, CpgNodeKind::If);
            let then = wf_child(cpg, guard, block());
            wf_child(cpg, then, CpgNodeKind::Return);
        });
    });
    let permissive = DefaultAlgorithmDetector::new().detect(&s.cpg, s.func);
    assert!(permissive.len() >= 3, "several families fire at once: {:?}", families(&permissive));
    let ceiling = permissive.iter().map(|d| d.confidence_permille).fold(0u32, u32::max);
    let strict = DefaultAlgorithmDetector::new().with_min_confidence(ceiling + 10);
    assert!(strict.detect(&s.cpg, s.func).is_empty());
}

#[test]
fn boundedness_changes_confidence_not_class() {
    let unbounded_single = {
        let mut s = scaffold("f");
        let cpg = &mut s.cpg;
        let w = wf_child(cpg, s.body, CpgNodeKind::While);
        wf_child(cpg, w, ident("c"));
        wf_child(cpg, w, block());
        ComplexityAnalyzer::new().estimate_time_complexity(&s.cpg, s.func)
    };
    assert!(matches!(unbounded_single.class, ComplexityClass::Linear));
    assert_eq!(unbounded_single.confidence_permille, 600, "unbounded ⇒ 0.6");

    let counted_single = {
        let mut s = scaffold("f");
        let cpg = &mut s.cpg;
        for_loop(cpg, s.body, |_, _| {});
        ComplexityAnalyzer::new().estimate_time_complexity(&s.cpg, s.func)
    };
    assert!(matches!(counted_single.class, ComplexityClass::Linear));
    assert_eq!(counted_single.confidence_permille, 800, "counted ⇒ 0.8");

    let unbounded_nested = {
        let mut s = scaffold("f");
        let cpg = &mut s.cpg;
        let outer = wf_child(cpg, s.body, CpgNodeKind::While);
        wf_child(cpg, outer, ident("c"));
        let ob = wf_child(cpg, outer, block());
        let inner = wf_child(cpg, ob, CpgNodeKind::While);
        wf_child(cpg, inner, ident("d"));
        wf_child(cpg, inner, block());
        ComplexityAnalyzer::new().estimate_time_complexity(&s.cpg, s.func)
    };
    assert!(matches!(unbounded_nested.class, ComplexityClass::Quadratic));
    assert_eq!(unbounded_nested.confidence_permille, 500);

    let counted_nested = {
        let mut s = scaffold("f");
        let cpg = &mut s.cpg;
        for_loop(cpg, s.body, |cpg, outer| {
            for_loop(cpg, outer, |_, _| {});
        });
        ComplexityAnalyzer::new().estimate_time_complexity(&s.cpg, s.func)
    };
    assert!(matches!(counted_nested.class, ComplexityClass::Quadratic));
    assert_eq!(counted_nested.confidence_permille, 800);

    let cubic = {
        let mut s = scaffold("f");
        let cpg = &mut s.cpg;
        for_loop(cpg, s.body, |cpg, a| {
            for_loop(cpg, a, |cpg, b| {
                for_loop(cpg, b, |_, _| {});
            });
        });
        ComplexityAnalyzer::new().estimate_time_complexity(&s.cpg, s.func)
    };
    assert!(matches!(cubic.class, ComplexityClass::Cubic), "got {cubic:?}");

    let quartic = {
        let mut s = scaffold("f");
        let cpg = &mut s.cpg;
        for_loop(cpg, s.body, |cpg, a| {
            for_loop(cpg, a, |cpg, b| {
                for_loop(cpg, b, |cpg, c| {
                    for_loop(cpg, c, |_, _| {});
                });
            });
        });
        ComplexityAnalyzer::new().estimate_time_complexity(&s.cpg, s.func)
    };
    assert!(matches!(quartic.class, ComplexityClass::Polynomial(4)), "got {quartic:?}");
}

#[test]
fn the_dominant_of_loops_and_recursion_wins() {
    let recursion_dominates = {
        let mut s = scaffold("fib");
        let cpg = &mut s.cpg;
        for_loop(cpg, s.body, |_, _| {});
        for _ in 0..2 {
            let c = wf_child(cpg, s.body, call());
            wf_child(cpg, c, ident("fib"));
        }
        ComplexityAnalyzer::new().estimate_time_complexity(&s.cpg, s.func)
    };
    assert!(matches!(recursion_dominates.class, ComplexityClass::Exponential), "got {recursion_dominates:?}");

    let loops_dominate = {
        let mut s = scaffold("walk");
        let cpg = &mut s.cpg;
        for_loop(cpg, s.body, |cpg, outer| {
            for_loop(cpg, outer, |_, _| {});
        });
        let ret = wf_child(cpg, s.body, CpgNodeKind::Return);
        let c = wf_child(cpg, ret, call());
        wf_child(cpg, c, ident("walk"));
        ComplexityAnalyzer::new().estimate_time_complexity(&s.cpg, s.func)
    };
    assert!(matches!(loops_dominate.class, ComplexityClass::Quadratic), "got {loops_dominate:?}");
}

#[test]
fn the_signature_mirrors_the_loop_structure() {
    let mut s = scaffold("sort");
    let cpg = &mut s.cpg;
    comparison(cpg, s.body);
    for_loop(cpg, s.body, |cpg, outer| {
        let w = wf_child(cpg, outer, CpgNodeKind::While);
        wf_child(cpg, w, ident("c"));
        wf_child(cpg, w, block());
    });
    wf_child(cpg, s.body, CpgNodeKind::Loop);
    wf_child(cpg, s.body, CpgNodeKind::Unknown { kind: "do_statement".into() });

    let found = DefaultAlgorithmDetector::new().detect(&s.cpg, s.func);
    let sorting = find(&found, AlgorithmFamily::Sorting).expect("a sorting detection");
    let loops = sorting.signature.loop_structure.as_ref().expect("the loop structure is recorded");
    assert_eq!(loops.loop_count, 4, "one entry per loop");
    assert_eq!(loops.max_depth, 2, "the `while` nests inside the `for`");
    assert_eq!(loops.loop_types.len(), 4);
    let kinds = &loops.loop_types;
    for (label, hit) in [
        ("CountedFor", kinds.iter().any(|l| matches!(l.kind, SigLoopKind::CountedFor))),
        ("While", kinds.iter().any(|l| matches!(l.kind, SigLoopKind::While))),
        ("Infinite", kinds.iter().any(|l| matches!(l.kind, SigLoopKind::Infinite))),
        ("DoWhile", kinds.iter().any(|l| matches!(l.kind, SigLoopKind::DoWhile))),
    ] {
        assert!(hit, "a {label} loop must appear in the signature");
    }
    assert!(kinds.iter().any(|l| matches!(l.bounds, LoopBounds::LinearN)), "the counted `for` is bounded");
    assert!(kinds.iter().any(|l| matches!(l.bounds, LoopBounds::Unknown)), "the bare `loop` is not");
    assert!(sorting.signature.time_complexity.is_some());
}

#[test]
fn several_loops_disqualify_a_linear_search() {
    let mut s = scaffold("find");
    let cpg = &mut s.cpg;
    for _ in 0..2 {
        for_loop(cpg, s.body, |cpg, body| {
            let guard = wf_child(cpg, body, CpgNodeKind::If);
            comparison(cpg, guard);
            let then = wf_child(cpg, guard, block());
            wf_child(cpg, then, CpgNodeKind::Return);
        });
    }
    let found = DefaultAlgorithmDetector::new().detect(&s.cpg, s.func);
    let search = find(&found, AlgorithmFamily::Searching).expect("a searching detection");
    assert_eq!(search.name, None, "two scans are not a linear search");
    assert_eq!(search.confidence_permille, 500);
}

#[test]
fn detection_on_a_non_function_node_is_empty() {
    let mut s = scaffold("f");
    let stray = s.cpg.add_node(CpgNode::new(NodeId::new(0), CpgNodeKind::Return, SourceRange::default()));
    assert!(DefaultAlgorithmDetector::new().detect(&s.cpg, stray).is_empty());
    assert!(ControlFlowAnalyzer::new().detect_recursion(&s.cpg, stray).is_none());
    let absent = NodeId::new(9_999);
    assert!(ControlFlowAnalyzer::new().detect_recursion(&s.cpg, absent).is_none());
}

#[test]
fn equally_confident_detections_keep_the_detector_order() {
    let mut s = scaffold("everything");
    let cpg = &mut s.cpg;
    wf_child(cpg, s.body, ident("visited"));
    wf_child(cpg, s.body, ident("queue"));
    wf_child(cpg, s.body, ident("memo"));
    for_loop(cpg, s.body, |cpg, outer| {
        for_loop(cpg, outer, |cpg, inner| {
            comparison(cpg, inner);
            wf_child(cpg, inner, CpgNodeKind::IndexAccess);
        });
    });
    let found = DefaultAlgorithmDetector::new().detect(&s.cpg, s.func);
    assert_eq!(
        families(&found),
        vec![AlgorithmFamily::GraphTraversal, AlgorithmFamily::DynamicProgramming, AlgorithmFamily::Sorting]
    );
    assert_eq!(found.iter().map(|d| d.confidence_permille).collect::<Vec<_>>(), vec![700, 700, 600]);
}

#[test]
fn the_default_detector_keeps_every_confidence() {
    let detector = DefaultAlgorithmDetector::default();
    assert_eq!(detector.min_confidence_permille, 0);
    let mut s = scaffold("sort");
    let cpg = &mut s.cpg;
    for_loop(cpg, s.body, |cpg, body| {
        comparison(cpg, body);
    });
    let found = detector.detect(&s.cpg, s.func);
    let sorting = find(&found, AlgorithmFamily::Sorting).expect("a linear sorting candidate");
    assert_eq!(sorting.confidence_permille, 400);
}

#[test]
fn signature_loop_depths_count_from_zero_for_the_outermost_loop() {
    let mut s = scaffold("sort");
    let cpg = &mut s.cpg;
    comparison(cpg, s.body);
    for_loop(cpg, s.body, |cpg, outer| {
        let w = wf_child(cpg, outer, CpgNodeKind::While);
        wf_child(cpg, w, ident("c"));
        wf_child(cpg, w, block());
    });
    let found = DefaultAlgorithmDetector::new().detect(&s.cpg, s.func);
    let sorting = find(&found, AlgorithmFamily::Sorting).expect("a sorting detection");
    let loops = sorting.signature.loop_structure.as_ref().expect("the loop structure is recorded");
    assert_eq!(loops.max_depth, 2, "the pattern depths count from one");
    let counted = loops.loop_types.iter().find(|l| matches!(l.kind, SigLoopKind::CountedFor)).expect("the `for`");
    let inner = loops.loop_types.iter().find(|l| matches!(l.kind, SigLoopKind::While)).expect("the `while`");
    assert_eq!(counted.depth, 0, "the outermost loop has depth 0");
    assert_eq!(inner.depth, 1, "the nested loop has depth 1");
}
