use libcpg::algorithms::signatures::{
    AlgorithmSignature, ComplexityClass, ComplexityEstimate, LoopBounds, LoopStructure, LoopType, RecursionPattern,
    ReductionPattern, SigLoopKind, SigRecursionKind,
};
use libcpg::graph::NodeId;

fn all_named_classes() -> Vec<ComplexityClass> {
    vec![
        ComplexityClass::Constant,
        ComplexityClass::Logarithmic,
        ComplexityClass::Linear,
        ComplexityClass::Linearithmic,
        ComplexityClass::Quadratic,
        ComplexityClass::Cubic,
        ComplexityClass::Polynomial(4),
        ComplexityClass::Exponential,
        ComplexityClass::Factorial,
        ComplexityClass::Unknown,
    ]
}

#[test]
fn test_as_str_every_variant() {
    assert_eq!(ComplexityClass::Constant.as_str(), "O(1)");
    assert_eq!(ComplexityClass::Logarithmic.as_str(), "O(log n)");
    assert_eq!(ComplexityClass::Linear.as_str(), "O(n)");
    assert_eq!(ComplexityClass::Linearithmic.as_str(), "O(n log n)");
    assert_eq!(ComplexityClass::Quadratic.as_str(), "O(n²)");
    assert_eq!(ComplexityClass::Cubic.as_str(), "O(n³)");
    assert_eq!(ComplexityClass::Polynomial(0).as_str(), "O(n^k)");
    assert_eq!(ComplexityClass::Polynomial(2).as_str(), "O(n^k)");
    assert_eq!(ComplexityClass::Polynomial(7).as_str(), "O(n^k)");
    assert_eq!(ComplexityClass::Exponential.as_str(), "O(2^n)");
    assert_eq!(ComplexityClass::Factorial.as_str(), "O(n!)");
    assert_eq!(ComplexityClass::Unknown.as_str(), "Unknown");
}

#[test]
fn test_display_matches_as_str() {
    for c in all_named_classes() {
        assert_eq!(c.display_string(), c.as_str());
    }
    assert_eq!(ComplexityClass::Polynomial(5).display_string(), "O(n^k)");
}

#[test]
fn test_is_better_than_named_ladder() {
    assert!(ComplexityClass::Constant.is_better_than(&ComplexityClass::Logarithmic));
    assert!(ComplexityClass::Logarithmic.is_better_than(&ComplexityClass::Linear));
    assert!(ComplexityClass::Linear.is_better_than(&ComplexityClass::Linearithmic));
    assert!(ComplexityClass::Linearithmic.is_better_than(&ComplexityClass::Quadratic));
    assert!(ComplexityClass::Quadratic.is_better_than(&ComplexityClass::Cubic));
    assert!(ComplexityClass::Cubic.is_better_than(&ComplexityClass::Exponential));
    assert!(ComplexityClass::Exponential.is_better_than(&ComplexityClass::Factorial));
    assert!(ComplexityClass::Factorial.is_better_than(&ComplexityClass::Unknown));
    assert!(!ComplexityClass::Linear.is_better_than(&ComplexityClass::Constant));
    assert!(!ComplexityClass::Exponential.is_better_than(&ComplexityClass::Cubic));
}

#[test]
fn test_is_better_than_irreflexive_spot() {
    for c in all_named_classes() {
        assert!(!c.is_better_than(&c), "{c:?} must not be better than itself");
    }
}

#[test]
fn test_polynomial_collapses_onto_named_ladder() {
    let pairs = [
        (ComplexityClass::Polynomial(0), ComplexityClass::Constant),
        (ComplexityClass::Polynomial(1), ComplexityClass::Linear),
        (ComplexityClass::Polynomial(2), ComplexityClass::Quadratic),
        (ComplexityClass::Polynomial(3), ComplexityClass::Cubic),
    ];
    for (poly, named) in pairs {
        assert!(!poly.is_better_than(&named), "{poly:?} vs {named:?} must tie");
        assert!(!named.is_better_than(&poly), "{named:?} vs {poly:?} must tie");
    }
}

#[test]
fn test_polynomial_high_k_between_cubic_and_exponential() {
    assert!(ComplexityClass::Cubic.is_better_than(&ComplexityClass::Polynomial(4)));
    assert!(ComplexityClass::Polynomial(4).is_better_than(&ComplexityClass::Exponential));
    assert!(ComplexityClass::Polynomial(1000).is_better_than(&ComplexityClass::Exponential));
    assert!(ComplexityClass::Polynomial(4).is_better_than(&ComplexityClass::Polynomial(5)));
    assert!(!ComplexityClass::Polynomial(5).is_better_than(&ComplexityClass::Polynomial(4)));
}

#[test]
fn test_algorithm_signature_builders() {
    let sig = AlgorithmSignature::new();
    assert!(sig.loop_structure.is_none());
    assert!(sig.recursion_pattern.is_none());
    assert!(sig.time_complexity.is_none());
    assert!(sig.space_complexity.is_none());

    let time = ComplexityEstimate {
        class: ComplexityClass::Linear,
        confidence_permille: 800,
        justification: "single loop".to_string(),
    };
    let space = ComplexityEstimate {
        class: ComplexityClass::Constant,
        confidence_permille: 700,
        justification: "no allocation".to_string(),
    };

    let sig = sig
        .with_loop_structure(LoopStructure::new().with_max_depth(2))
        .with_recursion(RecursionPattern::new(SigRecursionKind::Tail))
        .with_time_complexity(time)
        .with_space_complexity(space);

    assert_eq!(sig.loop_structure.as_ref().expect("loop structure set").max_depth, 2);
    assert_eq!(sig.recursion_pattern.as_ref().expect("recursion set").kind, SigRecursionKind::Tail);
    assert_eq!(sig.time_complexity.as_ref().expect("time set").class, ComplexityClass::Linear);
    assert_eq!(sig.space_complexity.as_ref().expect("space set").class, ComplexityClass::Constant);
}

#[test]
fn test_recursion_pattern_via_signature_reexports() {
    let lt = LoopType {
        header: NodeId::new(3),
        kind: SigLoopKind::CountedFor,
        depth: 1,
        bounds: LoopBounds::LinearN,
        has_early_exit: false,
    };
    let ls = LoopStructure::new().with_loop(lt).with_independence(true);
    assert_eq!(ls.loop_count, 1);
    assert_eq!(ls.loop_types.len(), 1);
    assert!(ls.loops_independent);
    let rp = RecursionPattern::new(SigRecursionKind::Direct).with_reduction(ReductionPattern::Division(2));
    assert!(matches!(rp.reduction, ReductionPattern::Division(2)));
}

#[test]
fn test_signature_default_matches_new() {
    let a = AlgorithmSignature::default();
    let b = AlgorithmSignature::new();
    assert!(a.loop_structure.is_none());
    assert!(b.loop_structure.is_none());
    assert!(a.time_complexity.is_none() && b.time_complexity.is_none());
}

#[test]
fn strict_weak_order_on_a_sample_of_classes() {
    let mut classes = all_named_classes();
    for k in 0..=8u32 {
        classes.push(ComplexityClass::Polynomial(k));
    }
    for a in &classes {
        assert!(!a.is_better_than(a));
        for b in &classes {
            if a.is_better_than(b) {
                assert!(!b.is_better_than(a));
            }
            for c in &classes {
                if a.is_better_than(b) && b.is_better_than(c) {
                    assert!(a.is_better_than(c));
                }
            }
        }
    }
}
