use libcpg::algorithms::families::{AlgorithmFamily, DPPattern, GraphAlgorithm, SearchingAlgorithm, SortingAlgorithm};

fn all_families() -> Vec<AlgorithmFamily> {
    vec![
        AlgorithmFamily::Sorting,
        AlgorithmFamily::Searching,
        AlgorithmFamily::GraphTraversal,
        AlgorithmFamily::ShortestPath,
        AlgorithmFamily::MinimumSpanningTree,
        AlgorithmFamily::DynamicProgramming,
        AlgorithmFamily::DivideAndConquer,
        AlgorithmFamily::Greedy,
        AlgorithmFamily::Backtracking,
        AlgorithmFamily::StringMatching,
        AlgorithmFamily::TreeAlgorithm,
        AlgorithmFamily::Hashing,
        AlgorithmFamily::Mathematical,
        AlgorithmFamily::Other,
    ]
}

#[test]
fn test_name_every_variant() {
    assert_eq!(AlgorithmFamily::Sorting.name(), "Sorting");
    assert_eq!(AlgorithmFamily::Searching.name(), "Searching");
    assert_eq!(AlgorithmFamily::GraphTraversal.name(), "Graph Traversal");
    assert_eq!(AlgorithmFamily::ShortestPath.name(), "Shortest Path");
    assert_eq!(AlgorithmFamily::MinimumSpanningTree.name(), "Minimum Spanning Tree");
    assert_eq!(AlgorithmFamily::DynamicProgramming.name(), "Dynamic Programming");
    assert_eq!(AlgorithmFamily::DivideAndConquer.name(), "Divide and Conquer");
    assert_eq!(AlgorithmFamily::Greedy.name(), "Greedy");
    assert_eq!(AlgorithmFamily::Backtracking.name(), "Backtracking");
    assert_eq!(AlgorithmFamily::StringMatching.name(), "String Matching");
    assert_eq!(AlgorithmFamily::TreeAlgorithm.name(), "Tree Algorithm");
    assert_eq!(AlgorithmFamily::Hashing.name(), "Hashing");
    assert_eq!(AlgorithmFamily::Mathematical.name(), "Mathematical");
    assert_eq!(AlgorithmFamily::Other.name(), "Other");
}

#[test]
fn test_typical_complexity_every_variant() {
    assert_eq!(AlgorithmFamily::Sorting.typical_complexity(), "O(n log n)");
    assert_eq!(AlgorithmFamily::Searching.typical_complexity(), "O(log n) to O(n)");
    assert_eq!(AlgorithmFamily::GraphTraversal.typical_complexity(), "O(V + E)");
    assert_eq!(AlgorithmFamily::ShortestPath.typical_complexity(), "O(E log V) to O(V³)");
    assert_eq!(AlgorithmFamily::MinimumSpanningTree.typical_complexity(), "O(E log V)");
    assert_eq!(AlgorithmFamily::DynamicProgramming.typical_complexity(), "Varies");
    assert_eq!(AlgorithmFamily::DivideAndConquer.typical_complexity(), "O(n log n)");
    assert_eq!(AlgorithmFamily::Greedy.typical_complexity(), "O(n log n)");
    assert_eq!(AlgorithmFamily::Backtracking.typical_complexity(), "O(k^n) worst case");
    assert_eq!(AlgorithmFamily::StringMatching.typical_complexity(), "O(n + m)");
    assert_eq!(AlgorithmFamily::TreeAlgorithm.typical_complexity(), "O(n)");
    assert_eq!(AlgorithmFamily::Hashing.typical_complexity(), "O(1) average");
    assert_eq!(AlgorithmFamily::Mathematical.typical_complexity(), "Varies");
    assert_eq!(AlgorithmFamily::Other.typical_complexity(), "Unknown");
}

#[test]
fn test_display_matches_name_and_nonempty() {
    for fam in all_families() {
        assert_eq!(fam.display_string(), fam.name());
        assert!(!fam.name().is_empty());
        assert!(!fam.typical_complexity().is_empty());
    }
}

#[test]
fn test_family_equality_and_copy() {
    let a = AlgorithmFamily::Sorting;
    let b = a;
    assert_eq!(a, b);
    assert_ne!(AlgorithmFamily::Sorting, AlgorithmFamily::Searching);
}

#[test]
fn test_dp_pattern_variants() {
    let all = [
        DPPattern::Linear,
        DPPattern::Matrix,
        DPPattern::Interval,
        DPPattern::Tree,
        DPPattern::Digit,
        DPPattern::Bitmask,
        DPPattern::Knapsack,
        DPPattern::Subsequence,
        DPPattern::Unknown,
    ];
    for (i, a) in all.iter().enumerate() {
        let copied = *a;
        assert_eq!(copied, *a);
        assert!(!format!("{a:?}").is_empty());
        for (j, b) in all.iter().enumerate() {
            assert_eq!(i == j, a == b);
        }
    }
}

#[test]
fn test_graph_algorithm_variants() {
    let all = [
        GraphAlgorithm::BFS,
        GraphAlgorithm::DFS,
        GraphAlgorithm::Dijkstra,
        GraphAlgorithm::BellmanFord,
        GraphAlgorithm::FloydWarshall,
        GraphAlgorithm::Prim,
        GraphAlgorithm::Kruskal,
        GraphAlgorithm::TopologicalSort,
        GraphAlgorithm::SCC,
        GraphAlgorithm::ArticulationPoints,
        GraphAlgorithm::Unknown,
    ];
    for (i, a) in all.iter().enumerate() {
        let copied = *a;
        assert_eq!(copied, *a);
        assert!(!format!("{a:?}").is_empty());
        for (j, b) in all.iter().enumerate() {
            assert_eq!(i == j, a == b);
        }
    }
}

#[test]
fn test_searching_algorithm_variants() {
    let all = [
        SearchingAlgorithm::BinarySearch,
        SearchingAlgorithm::LinearSearch,
        SearchingAlgorithm::InterpolationSearch,
        SearchingAlgorithm::ExponentialSearch,
        SearchingAlgorithm::JumpSearch,
        SearchingAlgorithm::HashLookup,
        SearchingAlgorithm::TreeSearch,
        SearchingAlgorithm::Unknown,
    ];
    for (i, a) in all.iter().enumerate() {
        let copied = *a;
        assert_eq!(copied, *a);
        assert!(!format!("{a:?}").is_empty());
        for (j, b) in all.iter().enumerate() {
            assert_eq!(i == j, a == b);
        }
    }
}

#[test]
fn test_sorting_algorithm_variants() {
    let all = [
        SortingAlgorithm::Quicksort,
        SortingAlgorithm::Mergesort,
        SortingAlgorithm::Heapsort,
        SortingAlgorithm::InsertionSort,
        SortingAlgorithm::SelectionSort,
        SortingAlgorithm::BubbleSort,
        SortingAlgorithm::RadixSort,
        SortingAlgorithm::CountingSort,
        SortingAlgorithm::BucketSort,
        SortingAlgorithm::Timsort,
        SortingAlgorithm::Unknown,
    ];
    for (i, a) in all.iter().enumerate() {
        let copied = *a;
        assert_eq!(copied, *a);
        assert!(!format!("{a:?}").is_empty());
        for (j, b) in all.iter().enumerate() {
            assert_eq!(i == j, a == b);
        }
    }
}
