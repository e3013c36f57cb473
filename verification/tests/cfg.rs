use libcpg::builder::cfg::{BasicBlockIdentifier, CfgExtractor, CfgExtractorConfig};
use libcpg::graph::{
    CfgEdgeKind, CodePropertyGraph, CpgEdgeKind, CpgNode, CpgNodeKind, Language, MethodSignature, NodeId, ScopeId,
    SourceRange, Visibility,
};

fn create_test_function(cpg: &mut CodePropertyGraph) -> NodeId {
    let func = cpg.add_node(CpgNode::new(
        NodeId::new(0),
        CpgNodeKind::Function {
            signature: MethodSignature {
                name: "test".into(),
                params: Default::default(),
                return_type: None,
                is_static: false,
                is_async: false,
                visibility: Visibility::Public,
            },
        },
        SourceRange::default(),
    ));
    let body = cpg.add_node(CpgNode::new(NodeId::new(0), CpgNodeKind::Block { scope: ScopeId::global() }, SourceRange::default()));
    cpg.connect_unique(func, body, CpgEdgeKind::AstChild);
    cpg.set_parent(body, Some(func));
    func
}

fn ast_child(cpg: &mut CodePropertyGraph, parent: NodeId, kind: CpgNodeKind) -> NodeId {
    let id = cpg.add_node(CpgNode::new(NodeId::new(0), kind, SourceRange::default()));
    cpg.connect(parent, id, CpgEdgeKind::AstChild);
    cpg.set_parent(id, Some(parent));
    cpg.push_child(parent, id);
    id
}

fn ident(name: &str) -> CpgNodeKind {
    CpgNodeKind::Identifier { name: name.into(), definition: None }
}

fn block() -> CpgNodeKind {
    CpgNodeKind::Block { scope: ScopeId::global() }
}

fn has_cfg(cpg: &CodePropertyGraph, from: NodeId, to: NodeId, kind: CfgEdgeKind) -> bool {
    cpg.cfg_successors(from).into_iter().any(|(succ, k)| succ == to && k == kind)
}

fn shell(cpg: &mut CodePropertyGraph) -> (NodeId, NodeId) {
    let func = create_test_function(cpg);
    let body = cpg.ast_children(func)[0];
    (func, body)
}

fn leaders(blocks: &[(NodeId, Vec<NodeId>)]) -> Vec<NodeId> {
    blocks.iter().map(|(l, _)| *l).collect()
}

#[test]
fn test_cfg_extractor_basic() {
    let mut cpg = CodePropertyGraph::new(Language::Rust);
    let func = create_test_function(&mut cpg);
    CfgExtractor::new().extract(&mut cpg);
    assert!(cpg.cfg_entries().contains(&func));
}

#[test]
fn test_cfg_if_statement() {
    let mut cpg = CodePropertyGraph::new(Language::Rust);
    let func = create_test_function(&mut cpg);
    let body = cpg.ast_children(func)[0];
    let if_node = ast_child(&mut cpg, body, CpgNodeKind::If);
    let _cond = ast_child(&mut cpg, if_node, ident("x"));
    let _then_branch = ast_child(&mut cpg, if_node, block());
    CfgExtractor::new().extract(&mut cpg);
    let if_successors = cpg.cfg_successors(if_node);
    assert!(!if_successors.is_empty(), "if node should have CFG successors");
}

#[test]
fn test_basic_block_identifier() {
    let mut cpg = CodePropertyGraph::new(Language::Rust);
    let func = create_test_function(&mut cpg);
    let blocks = BasicBlockIdentifier::new().identify(&cpg, func);
    assert!(leaders(&blocks).contains(&func));
}

#[test]
fn cfg_extractor_config_fields_and_with_config() {
    let d = CfgExtractorConfig::default();
    assert!(d.include_fallthrough);
    assert!(d.include_exceptions);
    assert!(d.include_call_edges);
    let custom = CfgExtractorConfig { include_fallthrough: false, include_exceptions: false, include_call_edges: false };
    let extractor = CfgExtractor::with_config(custom);
    let mut cpg = CodePropertyGraph::new(Language::Rust);
    let func = create_test_function(&mut cpg);
    extractor.extract(&mut cpg);
    assert!(cpg.cfg_entries().contains(&func));
}

#[test]
fn basic_block_leaders_include_function_and_branch_target() {
    let mut cpg = CodePropertyGraph::new(Language::Rust);
    let func = create_test_function(&mut cpg);
    let body = cpg.ast_children(func)[0];
    let if_node = ast_child(&mut cpg, body, CpgNodeKind::If);
    let _cond = ast_child(&mut cpg, if_node, ident("x"));
    let then_b = ast_child(&mut cpg, if_node, block());
    let _then_stmt = ast_child(&mut cpg, then_b, ident("y"));

    CfgExtractor::new().extract(&mut cpg);
    let blocks = BasicBlockIdentifier::new().identify(&cpg, func);

    assert!(leaders(&blocks).contains(&func), "the function is always a leader");
    for (leader, nodes) in &blocks {
        assert!(!nodes.is_empty(), "each basic block is non-empty");
        assert_eq!(nodes[0], *leader, "each block is headed by its leader");
    }
    assert!(leaders(&blocks).contains(&then_b), "a conditional branch target must be a basic-block leader");
}

#[test]
fn cfg_extract_is_idempotent_on_branchy_graph() {
    let mut cpg = CodePropertyGraph::new(Language::Rust);
    let func = create_test_function(&mut cpg);
    let body = cpg.ast_children(func)[0];
    let while_node = ast_child(&mut cpg, body, CpgNodeKind::While);
    let _guard = ast_child(&mut cpg, while_node, ident("c"));
    let loop_body = ast_child(&mut cpg, while_node, block());
    let _work = ast_child(&mut cpg, loop_body, ident("w"));

    CfgExtractor::new().extract(&mut cpg);
    let after_first = cpg.stats().cfg_edges;
    assert!(after_first > 0, "the while loop must produce CFG edges");
    CfgExtractor::new().extract(&mut cpg);
    assert_eq!(after_first, cpg.stats().cfg_edges, "extract must be idempotent (connect_unique)");
}

#[test]
fn loop_back_edges_to_header_and_exits_only_via_break() {
    let mut cpg = CodePropertyGraph::new(Language::Rust);
    let (func, body) = shell(&mut cpg);
    let loop_node = ast_child(&mut cpg, body, CpgNodeKind::Loop);
    let loop_body = ast_child(&mut cpg, loop_node, block());
    let work = ast_child(&mut cpg, loop_body, ident("w"));
    let brk = ast_child(&mut cpg, loop_body, CpgNodeKind::Break);

    CfgExtractor::new().extract_function_cfg(&mut cpg, func);

    assert!(has_cfg(&cpg, loop_node, loop_body, CfgEdgeKind::Sequential), "loop enters its body");
    assert!(
        has_cfg(&cpg, work, loop_node, CfgEdgeKind::LoopBack) || has_cfg(&cpg, loop_body, loop_node, CfgEdgeKind::LoopBack),
        "the body's exit loops back to the header"
    );
    assert!(has_cfg(&cpg, brk, loop_node, CfgEdgeKind::Break), "`break` leaves through the loop header");
    assert!(cpg.cfg_exits().contains(&brk), "break is the loop's exit");
}

#[test]
fn continue_targets_the_loop_condition() {
    let mut cpg = CodePropertyGraph::new(Language::Rust);
    let (func, body) = shell(&mut cpg);
    let while_node = ast_child(&mut cpg, body, CpgNodeKind::While);
    let cond = ast_child(&mut cpg, while_node, ident("c"));
    let loop_body = ast_child(&mut cpg, while_node, block());
    let cont = ast_child(&mut cpg, loop_body, CpgNodeKind::Continue);

    CfgExtractor::new().extract_function_cfg(&mut cpg, func);

    assert!(has_cfg(&cpg, while_node, cond, CfgEdgeKind::Sequential), "the loop evaluates its condition first");
    assert!(has_cfg(&cpg, cond, loop_body, CfgEdgeKind::ConditionalTrue), "a true condition enters the body");
    assert!(has_cfg(&cpg, cont, cond, CfgEdgeKind::Continue), "`continue` jumps to the continue target (the condition)");
}

#[test]
fn break_and_continue_outside_a_loop_emit_no_jump() {
    let mut cpg = CodePropertyGraph::new(Language::Rust);
    let (func, body) = shell(&mut cpg);
    let brk = ast_child(&mut cpg, body, CpgNodeKind::Break);
    let cont = ast_child(&mut cpg, body, CpgNodeKind::Continue);

    CfgExtractor::new().extract_function_cfg(&mut cpg, func);

    assert!(!cpg.cfg_successors(brk).iter().any(|(_, k)| *k == CfgEdgeKind::Break), "a loop-less `break` has no target");
    assert!(
        !cpg.cfg_successors(cont).iter().any(|(_, k)| *k == CfgEdgeKind::Continue),
        "a loop-less `continue` has no target"
    );
}

#[test]
fn for_loop_enters_body_and_receives_the_back_edge() {
    let mut cpg = CodePropertyGraph::new(Language::Rust);
    let (func, body) = shell(&mut cpg);
    let for_node = ast_child(&mut cpg, body, CpgNodeKind::For);
    let _binding = ast_child(&mut cpg, for_node, ident("i"));
    let loop_body = ast_child(&mut cpg, for_node, block());
    let work = ast_child(&mut cpg, loop_body, ident("w"));

    CfgExtractor::new().extract_function_cfg(&mut cpg, func);

    assert!(
        has_cfg(&cpg, for_node, loop_body, CfgEdgeKind::ConditionalTrue),
        "the header enters the body when the iterator yields"
    );
    assert!(has_cfg(&cpg, work, for_node, CfgEdgeKind::LoopBack), "the body loops back to the header");
}

#[test]
fn match_fans_out_case_edges_from_the_scrutinee() {
    let mut cpg = CodePropertyGraph::new(Language::Rust);
    let (func, body) = shell(&mut cpg);
    let match_node = ast_child(&mut cpg, body, CpgNodeKind::Match);
    let scrutinee = ast_child(&mut cpg, match_node, ident("e"));
    let arm_a = ast_child(&mut cpg, match_node, CpgNodeKind::MatchArm);
    let body_a = ast_child(&mut cpg, arm_a, block());
    let arm_b = ast_child(&mut cpg, match_node, CpgNodeKind::MatchArm);
    let body_b = ast_child(&mut cpg, arm_b, block());

    CfgExtractor::new().extract_function_cfg(&mut cpg, func);

    assert!(has_cfg(&cpg, match_node, scrutinee, CfgEdgeKind::Sequential), "the scrutinee is evaluated first");
    for arm in [arm_a, arm_b] {
        assert!(has_cfg(&cpg, scrutinee, arm, CfgEdgeKind::Case), "every arm is a case successor of the scrutinee");
    }
    assert!(has_cfg(&cpg, arm_a, body_a, CfgEdgeKind::Sequential));
    assert!(has_cfg(&cpg, arm_b, body_b, CfgEdgeKind::Sequential));
}

#[test]
fn match_without_a_scrutinee_fans_out_from_itself() {
    let mut cpg = CodePropertyGraph::new(Language::Rust);
    let (func, body) = shell(&mut cpg);
    let match_node = ast_child(&mut cpg, body, CpgNodeKind::Match);
    let arm_a = ast_child(&mut cpg, match_node, CpgNodeKind::MatchArm);
    let arm_b = ast_child(&mut cpg, match_node, CpgNodeKind::MatchArm);

    CfgExtractor::new().extract_function_cfg(&mut cpg, func);

    assert!(has_cfg(&cpg, match_node, arm_a, CfgEdgeKind::Case));
    assert!(has_cfg(&cpg, match_node, arm_b, CfgEdgeKind::Case));
    assert!(cpg.cfg_exits().contains(&arm_a) || cpg.cfg_exits().contains(&arm_b));
}

#[test]
fn empty_match_is_its_own_exit() {
    let mut cpg = CodePropertyGraph::new(Language::Rust);
    let (func, body) = shell(&mut cpg);
    let match_node = ast_child(&mut cpg, body, CpgNodeKind::Match);

    CfgExtractor::new().extract_function_cfg(&mut cpg, func);

    assert!(cpg.cfg_successors(match_node).is_empty());
    assert!(cpg.cfg_exits().contains(&match_node));
}

#[test]
fn return_evaluates_its_value_and_terminates_the_block() {
    let mut cpg = CodePropertyGraph::new(Language::Rust);
    let (func, body) = shell(&mut cpg);
    let ret = ast_child(&mut cpg, body, CpgNodeKind::Return);
    let value = ast_child(&mut cpg, ret, ident("v"));
    let after = ast_child(&mut cpg, body, ident("dead"));

    CfgExtractor::new().extract_function_cfg(&mut cpg, func);

    assert!(has_cfg(&cpg, ret, value, CfgEdgeKind::Sequential), "the returned expression is evaluated");
    assert!(!has_cfg(&cpg, ret, after, CfgEdgeKind::Sequential), "control does not fall through a `return`");
    assert!(cpg.cfg_exits().contains(&ret), "`return` exits the function");
}

#[test]
fn try_catch_finally_funnels_both_paths_into_finally() {
    let mut cpg = CodePropertyGraph::new(Language::Rust);
    let (func, body) = shell(&mut cpg);
    let try_node = ast_child(&mut cpg, body, CpgNodeKind::Try);
    let try_body = ast_child(&mut cpg, try_node, block());
    let try_stmt = ast_child(&mut cpg, try_body, ident("t"));
    let catch = ast_child(&mut cpg, try_node, CpgNodeKind::Catch);
    let catch_body = ast_child(&mut cpg, catch, block());
    let catch_stmt = ast_child(&mut cpg, catch_body, ident("c"));
    let finally = ast_child(&mut cpg, try_node, CpgNodeKind::Finally);

    CfgExtractor::new().extract_function_cfg(&mut cpg, func);

    assert!(has_cfg(&cpg, try_node, try_body, CfgEdgeKind::Sequential));
    assert!(has_cfg(&cpg, catch, catch_body, CfgEdgeKind::Sequential));
    assert!(has_cfg(&cpg, try_stmt, finally, CfgEdgeKind::Sequential), "the try body's exit reaches `finally`");
    assert!(has_cfg(&cpg, catch_stmt, finally, CfgEdgeKind::Sequential), "the catch body's exit reaches `finally`");
}

#[test]
fn try_without_finally_exits_through_its_bodies() {
    let mut cpg = CodePropertyGraph::new(Language::Rust);
    let (func, body) = shell(&mut cpg);
    let try_node = ast_child(&mut cpg, body, CpgNodeKind::Try);
    let try_body = ast_child(&mut cpg, try_node, block());
    let try_stmt = ast_child(&mut cpg, try_body, ident("t"));
    let catch = ast_child(&mut cpg, try_node, CpgNodeKind::Catch);
    let catch_body = ast_child(&mut cpg, catch, block());
    let catch_stmt = ast_child(&mut cpg, catch_body, ident("c"));

    CfgExtractor::new().extract_function_cfg(&mut cpg, func);

    let exits = cpg.cfg_exits();
    assert!(exits.contains(&try_stmt) && exits.contains(&catch_stmt), "both the normal and the handler path exit the construct");
    assert!(has_cfg(&cpg, try_node, try_body, CfgEdgeKind::Sequential));
    assert!(has_cfg(&cpg, catch, catch_body, CfgEdgeKind::Sequential));
}

#[test]
fn throw_reaches_every_enclosing_handler() {
    let mut cpg = CodePropertyGraph::new(Language::Rust);
    let (func, body) = shell(&mut cpg);
    let try_node = ast_child(&mut cpg, body, CpgNodeKind::Try);
    let try_body = ast_child(&mut cpg, try_node, block());
    let throw = ast_child(&mut cpg, try_body, CpgNodeKind::Throw);
    let operand = ast_child(&mut cpg, throw, ident("e"));
    let catch_a = ast_child(&mut cpg, try_node, CpgNodeKind::Catch);
    let _catch_a_body = ast_child(&mut cpg, catch_a, block());
    let catch_b = ast_child(&mut cpg, try_node, CpgNodeKind::Catch);
    let _catch_b_body = ast_child(&mut cpg, catch_b, block());

    CfgExtractor::new().extract_function_cfg(&mut cpg, func);

    assert!(has_cfg(&cpg, throw, operand, CfgEdgeKind::Sequential), "the thrown expression is evaluated");
    for catch in [catch_a, catch_b] {
        assert!(has_cfg(&cpg, throw, catch, CfgEdgeKind::Throw), "the exception may be taken by any enclosing handler");
    }
}

#[test]
fn exceptions_disabled_degrades_try_and_throw_to_plain_flow() {
    let config = CfgExtractorConfig { include_exceptions: false, ..CfgExtractorConfig::default() };
    let mut cpg = CodePropertyGraph::new(Language::Rust);
    let (func, body) = shell(&mut cpg);
    let try_node = ast_child(&mut cpg, body, CpgNodeKind::Try);
    let try_body = ast_child(&mut cpg, try_node, block());
    let throw = ast_child(&mut cpg, try_body, CpgNodeKind::Throw);
    let catch = ast_child(&mut cpg, try_node, CpgNodeKind::Catch);
    let _catch_body = ast_child(&mut cpg, catch, block());

    CfgExtractor::with_config(config).extract_function_cfg(&mut cpg, func);

    assert!(
        !cpg.cfg_successors(throw).iter().any(|(_, k)| *k == CfgEdgeKind::Throw),
        "no handler edges when exception tracking is off"
    );
    assert!(has_cfg(&cpg, try_node, try_body, CfgEdgeKind::Sequential), "`try` still flows into its first child sequentially");
}

#[test]
fn call_edges_follow_the_resolved_target_and_the_config() {
    let mut cpg = CodePropertyGraph::new(Language::Rust);
    let (func, body) = shell(&mut cpg);
    let callee = create_test_function(&mut cpg);
    let call = ast_child(&mut cpg, body, CpgNodeKind::Call { target: Some(callee), is_method: false });
    let arg = ast_child(&mut cpg, call, ident("a"));

    CfgExtractor::new().extract_function_cfg(&mut cpg, func);

    assert!(has_cfg(&cpg, call, arg, CfgEdgeKind::Sequential), "arguments are evaluated before the call");
    assert!(has_cfg(&cpg, call, callee, CfgEdgeKind::Call), "a resolved call reaches its callee");

    let mut plain = CodePropertyGraph::new(Language::Rust);
    let (func2, body2) = shell(&mut plain);
    let callee2 = create_test_function(&mut plain);
    let call2 = ast_child(&mut plain, body2, CpgNodeKind::Call { target: Some(callee2), is_method: false });
    let config = CfgExtractorConfig { include_call_edges: false, ..CfgExtractorConfig::default() };
    CfgExtractor::with_config(config).extract_function_cfg(&mut plain, func2);
    assert!(!has_cfg(&plain, call2, callee2, CfgEdgeKind::Call), "call edges are suppressed when the config disables them");
}

#[test]
fn if_else_resolves_through_the_else_wrapper() {
    let mut cpg = CodePropertyGraph::new(Language::Rust);
    let (func, body) = shell(&mut cpg);
    let if_node = ast_child(&mut cpg, body, CpgNodeKind::If);
    let cond = ast_child(&mut cpg, if_node, ident("c"));
    let then_b = ast_child(&mut cpg, if_node, block());
    let else_node = ast_child(&mut cpg, if_node, CpgNodeKind::Else);
    let else_b = ast_child(&mut cpg, else_node, block());

    CfgExtractor::new().extract_function_cfg(&mut cpg, func);

    assert!(has_cfg(&cpg, cond, then_b, CfgEdgeKind::ConditionalTrue));
    assert!(has_cfg(&cpg, cond, else_b, CfgEdgeKind::ConditionalFalse), "the false edge skips the `Else` wrapper and targets its block");
}

#[test]
fn if_else_without_a_wrapper_targets_the_branch_directly() {
    let mut cpg = CodePropertyGraph::new(Language::Rust);
    let (func, body) = shell(&mut cpg);
    let if_node = ast_child(&mut cpg, body, CpgNodeKind::If);
    let cond = ast_child(&mut cpg, if_node, ident("c"));
    let then_b = ast_child(&mut cpg, if_node, block());
    let else_b = ast_child(&mut cpg, if_node, block());

    CfgExtractor::new().extract_function_cfg(&mut cpg, func);

    assert!(has_cfg(&cpg, cond, then_b, CfgEdgeKind::ConditionalTrue));
    assert!(has_cfg(&cpg, cond, else_b, CfgEdgeKind::ConditionalFalse));
}

#[test]
fn degenerate_constructs_are_inert() {
    let mut cpg = CodePropertyGraph::new(Language::Rust);
    let (func, body) = shell(&mut cpg);
    let bare_if = ast_child(&mut cpg, body, CpgNodeKind::If);
    let cond_only_if = ast_child(&mut cpg, body, CpgNodeKind::If);
    let lone_cond = ast_child(&mut cpg, cond_only_if, ident("c"));
    let bare_while = ast_child(&mut cpg, body, CpgNodeKind::While);
    let _while_cond = ast_child(&mut cpg, bare_while, ident("c"));
    let bare_for = ast_child(&mut cpg, body, CpgNodeKind::For);
    let bare_loop = ast_child(&mut cpg, body, CpgNodeKind::Loop);
    let empty_block = ast_child(&mut cpg, body, block());

    CfgExtractor::new().extract_function_cfg(&mut cpg, func);

    let branches = |id: NodeId| cpg.cfg_successors(id).iter().any(|(_, k)| k.is_conditional() || k.is_loop());
    assert!(!branches(bare_if), "a childless `if` never branches");
    assert!(has_cfg(&cpg, cond_only_if, lone_cond, CfgEdgeKind::Sequential), "a condition-only `if` still evaluates its condition");
    assert!(!branches(cond_only_if), "with no branches there is nothing to branch to");
    assert!(!branches(bare_while), "a `while` without a body never branches or loops");
    assert!(!branches(bare_for), "a childless `for` has no back-edge");
    assert!(!branches(bare_loop), "a childless `loop` has no back-edge");
    assert!(cpg.cfg_successors(empty_block).is_empty(), "an empty trailing block is a dead end");
}

#[test]
fn bodyless_function_and_default_constructors() {
    let mut cpg = CodePropertyGraph::new(Language::Rust);
    let func = cpg.add_node(CpgNode::new(
        NodeId::new(0),
        CpgNodeKind::Function {
            signature: MethodSignature {
                name: "empty".into(),
                params: Default::default(),
                return_type: None,
                is_static: false,
                is_async: false,
                visibility: Visibility::Private,
            },
        },
        SourceRange::default(),
    ));
    CfgExtractor::default().extract(&mut cpg);
    assert!(cpg.cfg_entries().contains(&func));
    assert!(cpg.cfg_exits().is_empty(), "no body ⇒ no exit points");
    let identifier = BasicBlockIdentifier::default();
    assert!(leaders(&identifier.identify(&cpg, func)).contains(&func));
}

#[test]
fn extraction_terminates_on_a_cyclic_ast() {
    let mut cpg = CodePropertyGraph::new(Language::Rust);
    let (func, body) = shell(&mut cpg);
    let inner = ast_child(&mut cpg, body, block());
    cpg.connect(inner, func, CpgEdgeKind::AstChild);
    cpg.push_child(inner, func);

    CfgExtractor::new().extract_function_cfg(&mut cpg, func);

    assert!(cpg.cfg_entries().contains(&func));
    for edge in cpg.edges() {
        assert!(cpg.node(edge.source).is_some());
        assert!(cpg.node(edge.target).is_some());
    }
}

#[test]
fn a_shared_node_is_processed_on_every_path() {
    let mut cpg = CodePropertyGraph::new(Language::Rust);
    let (func, body) = shell(&mut cpg);
    let if_node = ast_child(&mut cpg, body, CpgNodeKind::If);
    let cond = ast_child(&mut cpg, if_node, ident("c"));
    let then_b = ast_child(&mut cpg, if_node, block());
    let else_b = ast_child(&mut cpg, if_node, block());
    let shared = ast_child(&mut cpg, then_b, ident("shared"));
    cpg.connect(else_b, shared, CpgEdgeKind::AstChild);
    cpg.push_child(else_b, shared);

    CfgExtractor::new().extract_function_cfg(&mut cpg, func);

    assert!(has_cfg(&cpg, cond, then_b, CfgEdgeKind::ConditionalTrue));
    assert!(has_cfg(&cpg, cond, else_b, CfgEdgeKind::ConditionalFalse));
    assert!(
        has_cfg(&cpg, then_b, shared, CfgEdgeKind::Sequential) && has_cfg(&cpg, else_b, shared, CfgEdgeKind::Sequential),
        "both branches flow into the shared statement"
    );
}

#[test]
fn break_binds_to_the_innermost_loop() {
    let mut cpg = CodePropertyGraph::new(Language::Rust);
    let (func, body) = shell(&mut cpg);
    let outer = ast_child(&mut cpg, body, CpgNodeKind::While);
    let outer_cond = ast_child(&mut cpg, outer, ident("o"));
    let outer_body = ast_child(&mut cpg, outer, block());
    let inner = ast_child(&mut cpg, outer_body, CpgNodeKind::While);
    let _inner_cond = ast_child(&mut cpg, inner, ident("i"));
    let inner_body = ast_child(&mut cpg, inner, block());
    let brk = ast_child(&mut cpg, inner_body, CpgNodeKind::Break);

    CfgExtractor::new().extract_function_cfg(&mut cpg, func);

    assert!(has_cfg(&cpg, brk, inner, CfgEdgeKind::Break), "`break` leaves the innermost loop");
    assert!(!has_cfg(&cpg, brk, outer, CfgEdgeKind::Break), "`break` does not leave the outer loop");
    assert!(has_cfg(&cpg, outer, outer_cond, CfgEdgeKind::Sequential), "the outer loop is still wired normally");
}

#[test]
fn straight_line_code_is_one_basic_block() {
    let mut cpg = CodePropertyGraph::new(Language::Rust);
    let (func, body) = shell(&mut cpg);
    let a = ast_child(&mut cpg, body, ident("a"));
    let b = ast_child(&mut cpg, body, ident("b"));
    CfgExtractor::new().extract_function_cfg(&mut cpg, func);
    let blocks = BasicBlockIdentifier::new().identify(&cpg, func);
    assert_eq!(blocks.len(), 1, "no branch, one block");
    assert_eq!(blocks[0].0, func);
    assert_eq!(blocks[0].1, vec![func, body, a, b]);
}

#[test]
fn a_second_extraction_changes_no_edge_entry_or_exit() {
    let mut cpg = CodePropertyGraph::new(Language::Rust);
    let (_func, body) = shell(&mut cpg);
    let try_node = ast_child(&mut cpg, body, CpgNodeKind::Try);
    let try_body = ast_child(&mut cpg, try_node, block());
    let loop_node = ast_child(&mut cpg, try_body, CpgNodeKind::Loop);
    let loop_body = ast_child(&mut cpg, loop_node, block());
    let _brk = ast_child(&mut cpg, loop_body, CpgNodeKind::Break);
    let _thr = ast_child(&mut cpg, try_body, CpgNodeKind::Throw);
    let catch = ast_child(&mut cpg, try_node, CpgNodeKind::Catch);
    let _catch_body = ast_child(&mut cpg, catch, block());
    let fin = ast_child(&mut cpg, try_node, CpgNodeKind::Finally);
    let _fin_stmt = ast_child(&mut cpg, fin, ident("cleanup"));

    CfgExtractor::new().extract(&mut cpg);
    let edges = cpg.edges().clone();
    let entries = cpg.cfg_entries().clone();
    let exits = cpg.cfg_exits().clone();
    assert!(edges.len() > 7);
    CfgExtractor::new().extract(&mut cpg);
    assert_eq!(cpg.edges(), &edges);
    assert_eq!(cpg.cfg_entries(), &entries);
    assert_eq!(cpg.cfg_exits(), &exits);
}

#[test]
fn a_block_wires_its_statements_in_order() {
    let mut cpg = CodePropertyGraph::new(Language::Rust);
    let (func, body) = shell(&mut cpg);
    let a = ast_child(&mut cpg, body, ident("a"));
    let b = ast_child(&mut cpg, body, ident("b"));
    let ast_edges = cpg.edge_count();
    CfgExtractor::new().extract(&mut cpg);
    let added: Vec<(NodeId, NodeId, CpgEdgeKind)> =
        cpg.edges()[ast_edges..].iter().map(|e| (e.source, e.target, e.kind)).collect();
    let seq = CpgEdgeKind::ControlFlow(CfgEdgeKind::Sequential);
    assert_eq!(added, vec![(func, body, seq), (body, a, seq), (a, b, seq)]);
    assert_eq!(cpg.cfg_entries(), &vec![func]);
    assert_eq!(cpg.cfg_exits(), &vec![b]);
}
