//! Algorithm families and the named algorithms within them.

use vstd::prelude::*;

verus! {

/// Algorithm families.
#[derive(Debug, Clone, Copy, PartialEq, Eq, Structural, Hash)]
pub enum AlgorithmFamily {
    /// Sorting algorithms (quicksort, mergesort, etc.).
    Sorting,
    /// Searching algorithms (binary search, linear search, etc.).
    Searching,
    /// Graph traversal (BFS, DFS, etc.).
    GraphTraversal,
    /// Shortest path algorithms (Dijkstra, Bellman-Ford, etc.).
    ShortestPath,
    /// Minimum spanning tree (Prim, Kruskal, etc.).
    MinimumSpanningTree,
    /// Dynamic programming.
    DynamicProgramming,
    /// Divide and conquer.
    DivideAndConquer,
    /// Greedy algorithms.
    Greedy,
    /// Backtracking algorithms.
    Backtracking,
    /// String matching (KMP, Rabin-Karp, etc.).
    StringMatching,
    /// Tree algorithms.
    TreeAlgorithm,
    /// Hashing.
    Hashing,
    /// Mathematical/numerical.
    Mathematical,
    /// Other/unknown.
    Other,
}

impl AlgorithmFamily {
    /// The family's display name.
    pub open spec fn spec_name(&self) -> Seq<char> {
        match *self {
            AlgorithmFamily::Sorting => "Sorting"@,
            AlgorithmFamily::Searching => "Searching"@,
            AlgorithmFamily::GraphTraversal => "Graph Traversal"@,
            AlgorithmFamily::ShortestPath => "Shortest Path"@,
            AlgorithmFamily::MinimumSpanningTree => "Minimum Spanning Tree"@,
            AlgorithmFamily::DynamicProgramming => "Dynamic Programming"@,
            AlgorithmFamily::DivideAndConquer => "Divide and Conquer"@,
            AlgorithmFamily::Greedy => "Greedy"@,
            AlgorithmFamily::Backtracking => "Backtracking"@,
            AlgorithmFamily::StringMatching => "String Matching"@,
            AlgorithmFamily::TreeAlgorithm => "Tree Algorithm"@,
            AlgorithmFamily::Hashing => "Hashing"@,
            AlgorithmFamily::Mathematical => "Mathematical"@,
            AlgorithmFamily::Other => "Other"@,
        }
    }

    /// Typical complexity of well-implemented members of the family.
    pub open spec fn spec_typical_complexity(&self) -> Seq<char> {
        match *self {
            AlgorithmFamily::Sorting => "O(n log n)"@,
            AlgorithmFamily::Searching => "O(log n) to O(n)"@,
            AlgorithmFamily::GraphTraversal => "O(V + E)"@,
            AlgorithmFamily::ShortestPath => "O(E log V) to O(V³)"@,
            AlgorithmFamily::MinimumSpanningTree => "O(E log V)"@,
            AlgorithmFamily::DynamicProgramming => "Varies"@,
            AlgorithmFamily::DivideAndConquer => "O(n log n)"@,
            AlgorithmFamily::Greedy => "O(n log n)"@,
            AlgorithmFamily::Backtracking => "O(k^n) worst case"@,
            AlgorithmFamily::StringMatching => "O(n + m)"@,
            AlgorithmFamily::TreeAlgorithm => "O(n)"@,
            AlgorithmFamily::Hashing => "O(1) average"@,
            AlgorithmFamily::Mathematical => "Varies"@,
            AlgorithmFamily::Other => "Unknown"@,
        }
    }

    /// The family's display name.
    pub fn name(&self) -> (r: &'static str)
        ensures
            r@ == self.spec_name(),
    {
        match self {
            AlgorithmFamily::Sorting => "Sorting",
            AlgorithmFamily::Searching => "Searching",
            AlgorithmFamily::GraphTraversal => "Graph Traversal",
            AlgorithmFamily::ShortestPath => "Shortest Path",
            AlgorithmFamily::MinimumSpanningTree => "Minimum Spanning Tree",
            AlgorithmFamily::DynamicProgramming => "Dynamic Programming",
            AlgorithmFamily::DivideAndConquer => "Divide and Conquer",
            AlgorithmFamily::Greedy => "Greedy",
            AlgorithmFamily::Backtracking => "Backtracking",
            AlgorithmFamily::StringMatching => "String Matching",
            AlgorithmFamily::TreeAlgorithm => "Tree Algorithm",
            AlgorithmFamily::Hashing => "Hashing",
            AlgorithmFamily::Mathematical => "Mathematical",
            AlgorithmFamily::Other => "Other",
        }
    }

    /// Typical complexity of well-implemented members of the family.
    pub fn typical_complexity(&self) -> (r: &'static str)
        ensures
            r@ == self.spec_typical_complexity(),
    {
        match self {
            AlgorithmFamily::Sorting => "O(n log n)",
            AlgorithmFamily::Searching => "O(log n) to O(n)",
            AlgorithmFamily::GraphTraversal => "O(V + E)",
            AlgorithmFamily::ShortestPath => "O(E log V) to O(V³)",
            AlgorithmFamily::MinimumSpanningTree => "O(E log V)",
            AlgorithmFamily::DynamicProgramming => "Varies",
            AlgorithmFamily::DivideAndConquer => "O(n log n)",
            AlgorithmFamily::Greedy => "O(n log n)",
            AlgorithmFamily::Backtracking => "O(k^n) worst case",
            AlgorithmFamily::StringMatching => "O(n + m)",
            AlgorithmFamily::TreeAlgorithm => "O(n)",
            AlgorithmFamily::Hashing => "O(1) average",
            AlgorithmFamily::Mathematical => "Varies",
            AlgorithmFamily::Other => "Unknown",
        }
    }

    /// The display text of the family: its name.
    pub fn display_string(&self) -> (r: String)
        ensures
            r@ == self.spec_name(),
    {
        self.name().to_owned()
    }
}

/// Known dynamic-programming problem patterns.
#[derive(Debug, Clone, Copy, PartialEq, Eq, Structural)]
pub enum DPPattern {
    /// Linear DP (1D state).
    Linear,
    /// 2D DP (matrix-based).
    Matrix,
    /// Interval DP.
    Interval,
    /// Tree DP.
    Tree,
    /// Digit DP.
    Digit,
    /// Bitmask DP.
    Bitmask,
    /// Knapsack-type.
    Knapsack,
    /// LCS/LIS type.
    Subsequence,
    /// Unknown pattern.
    Unknown,
}

/// Known graph algorithms.
#[derive(Debug, Clone, Copy, PartialEq, Eq, Structural)]
pub enum GraphAlgorithm {
    /// Breadth-first search.
    BFS,
    /// Depth-first search.
    DFS,
    /// Dijkstra's shortest path.
    Dijkstra,
    /// Bellman-Ford shortest path.
    BellmanFord,
    /// Floyd-Warshall all pairs shortest path.
    FloydWarshall,
    /// Prim's MST.
    Prim,
    /// Kruskal's MST.
    Kruskal,
    /// Topological sort.
    TopologicalSort,
    /// Strongly connected components.
    SCC,
    /// Articulation points.
    ArticulationPoints,
    /// Unknown graph algorithm.
    Unknown,
}

/// Known searching algorithms.
#[derive(Debug, Clone, Copy, PartialEq, Eq, Structural)]
pub enum SearchingAlgorithm {
    /// Binary search.
    BinarySearch,
    /// Linear search.
    LinearSearch,
    /// Interpolation search.
    InterpolationSearch,
    /// Exponential search.
    ExponentialSearch,
    /// Jump search.
    JumpSearch,
    /// Hash-based lookup.
    HashLookup,
    /// Tree-based search.
    TreeSearch,
    /// Unknown searching algorithm.
    Unknown,
}

/// Known sorting algorithms.
#[derive(Debug, Clone, Copy, PartialEq, Eq, Structural)]
pub enum SortingAlgorithm {
    /// Quicksort.
    Quicksort,
    /// Merge sort.
    Mergesort,
    /// Heap sort.
    Heapsort,
    /// Insertion sort.
    InsertionSort,
    /// Selection sort.
    SelectionSort,
    /// Bubble sort.
    BubbleSort,
    /// Radix sort.
    RadixSort,
    /// Counting sort.
    CountingSort,
    /// Bucket sort.
    BucketSort,
    /// Tim sort.
    Timsort,
    /// Unknown sorting algorithm.
    Unknown,
}

} // verus!
