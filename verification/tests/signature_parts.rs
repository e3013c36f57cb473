use libcpg::algorithms::signatures::loops::{LoopBounds, LoopKind, LoopStructure, LoopType};
use libcpg::algorithms::signatures::recursion::{RecursionKind, RecursionPattern, ReductionPattern};
use libcpg::graph::NodeId;

fn sample_loop(depth: usize) -> LoopType {
    LoopType {
        header: NodeId::new(depth as u32),
        kind: LoopKind::CountedFor,
        depth,
        bounds: LoopBounds::LinearN,
        has_early_exit: false,
    }
}

#[test]
fn test_loop_structure_default_is_empty() {
    let ls = LoopStructure::new();
    assert_eq!(ls.max_depth, 0);
    assert_eq!(ls.loop_count, 0);
    assert!(ls.loop_types.is_empty());
    assert!(!ls.loops_independent);
    let d = LoopStructure::default();
    assert_eq!(d.max_depth, ls.max_depth);
    assert_eq!(d.loop_count, ls.loop_count);
}

#[test]
fn test_loop_structure_with_max_depth() {
    let ls = LoopStructure::new().with_max_depth(3);
    assert_eq!(ls.max_depth, 3);
}

#[test]
fn test_loop_structure_with_loop_increments_count() {
    let ls = LoopStructure::new().with_loop(sample_loop(0)).with_loop(sample_loop(1));
    assert_eq!(ls.loop_count, 2);
    assert_eq!(ls.loop_types.len(), 2);
    assert_eq!(ls.loop_types[0].depth, 0);
    assert_eq!(ls.loop_types[1].depth, 1);
}

#[test]
fn test_loop_structure_with_independence() {
    let ls = LoopStructure::new().with_independence(true);
    assert!(ls.loops_independent);
    let ls = LoopStructure::new().with_independence(false);
    assert!(!ls.loops_independent);
}

#[test]
fn test_loop_structure_builder_chains() {
    let ls = LoopStructure::new()
        .with_max_depth(2)
        .with_loop(sample_loop(0))
        .with_loop(sample_loop(1))
        .with_independence(true);
    assert_eq!(ls.max_depth, 2);
    assert_eq!(ls.loop_count, 2);
    assert!(ls.loops_independent);
}

#[test]
fn test_loop_type_fields() {
    let lt = LoopType {
        header: NodeId::new(7),
        kind: LoopKind::While,
        depth: 2,
        bounds: LoopBounds::Constant(16),
        has_early_exit: true,
    };
    assert_eq!(lt.header, NodeId::new(7));
    assert_eq!(lt.kind, LoopKind::While);
    assert_eq!(lt.depth, 2);
    assert!(lt.has_early_exit);
    assert!(matches!(lt.bounds, LoopBounds::Constant(16)));
}

#[test]
fn test_loop_kind_variants_distinct() {
    let kinds = [LoopKind::CountedFor, LoopKind::ForEach, LoopKind::While, LoopKind::DoWhile, LoopKind::Infinite];
    for (i, a) in kinds.iter().enumerate() {
        for (j, b) in kinds.iter().enumerate() {
            assert_eq!(i == j, a == b);
        }
    }
}

#[test]
fn test_loop_bounds_default_is_unknown() {
    assert!(matches!(LoopBounds::default(), LoopBounds::Unknown));
}

#[test]
fn test_loop_bounds_variants_construct() {
    assert!(matches!(LoopBounds::Constant(4), LoopBounds::Constant(4)));
    assert!(matches!(LoopBounds::LinearN, LoopBounds::LinearN));
    assert!(matches!(LoopBounds::LogarithmicN, LoopBounds::LogarithmicN));
    assert!(matches!(LoopBounds::Multiple, LoopBounds::Multiple));
    assert!(matches!(LoopBounds::Unknown, LoopBounds::Unknown));
}

#[test]
fn test_recursion_pattern_new_defaults() {
    let rp = RecursionPattern::new(RecursionKind::Direct);
    assert_eq!(rp.kind, RecursionKind::Direct);
    assert!(rp.base_cases.is_empty());
    assert!(rp.recursive_calls.is_empty());
    assert!(matches!(rp.reduction, ReductionPattern::Unknown));
    assert!(!rp.tail_optimizable);
}

#[test]
fn test_recursion_pattern_default_is_direct() {
    let rp = RecursionPattern::default();
    assert_eq!(rp.kind, RecursionKind::Direct);
    assert!(rp.base_cases.is_empty());
    assert!(rp.recursive_calls.is_empty());
    assert!(!rp.tail_optimizable);
}

#[test]
fn test_recursion_pattern_with_base_case() {
    let rp = RecursionPattern::new(RecursionKind::Direct)
        .with_base_case(NodeId::new(1))
        .with_base_case(NodeId::new(2));
    assert_eq!(rp.base_cases, vec![NodeId::new(1), NodeId::new(2)]);
}

#[test]
fn test_recursion_pattern_with_recursive_call() {
    let rp = RecursionPattern::new(RecursionKind::Binary)
        .with_recursive_call(NodeId::new(5))
        .with_recursive_call(NodeId::new(6));
    assert_eq!(rp.kind, RecursionKind::Binary);
    assert_eq!(rp.recursive_calls, vec![NodeId::new(5), NodeId::new(6)]);
}

#[test]
fn test_recursion_pattern_with_reduction() {
    let rp = RecursionPattern::new(RecursionKind::Direct).with_reduction(ReductionPattern::Division(2));
    assert!(matches!(rp.reduction, ReductionPattern::Division(2)));
}

#[test]
fn test_recursion_pattern_with_tail_optimizable() {
    let rp = RecursionPattern::new(RecursionKind::Tail).with_tail_optimizable(true);
    assert_eq!(rp.kind, RecursionKind::Tail);
    assert!(rp.tail_optimizable);
}

#[test]
fn test_recursion_pattern_full_chain() {
    let rp = RecursionPattern::new(RecursionKind::Multiple)
        .with_base_case(NodeId::new(10))
        .with_recursive_call(NodeId::new(11))
        .with_recursive_call(NodeId::new(12))
        .with_recursive_call(NodeId::new(13))
        .with_reduction(ReductionPattern::Linear)
        .with_tail_optimizable(false);
    assert_eq!(rp.kind, RecursionKind::Multiple);
    assert_eq!(rp.base_cases.len(), 1);
    assert_eq!(rp.recursive_calls.len(), 3);
    assert!(matches!(rp.reduction, ReductionPattern::Linear));
    assert!(!rp.tail_optimizable);
}

#[test]
fn test_recursion_kind_variants_distinct() {
    let kinds = [
        RecursionKind::Direct,
        RecursionKind::Indirect,
        RecursionKind::Tail,
        RecursionKind::Binary,
        RecursionKind::Multiple,
    ];
    for (i, a) in kinds.iter().enumerate() {
        for (j, b) in kinds.iter().enumerate() {
            assert_eq!(i == j, a == b);
        }
    }
}

#[test]
fn test_reduction_pattern_variants_construct() {
    assert!(matches!(ReductionPattern::Constant(3), ReductionPattern::Constant(3)));
    assert!(matches!(ReductionPattern::Linear, ReductionPattern::Linear));
    assert!(matches!(ReductionPattern::Division(2), ReductionPattern::Division(2)));
    assert!(matches!(ReductionPattern::Logarithmic, ReductionPattern::Logarithmic));
    assert!(matches!(ReductionPattern::Unknown, ReductionPattern::Unknown));
}
