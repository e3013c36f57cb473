//! Algorithm signatures and complexity classes.

pub mod loops;
pub mod recursion;

use vstd::prelude::*;
pub use loops::{LoopBounds, LoopKind as SigLoopKind, LoopStructure, LoopType};
pub use recursion::{RecursionKind as SigRecursionKind, RecursionPattern, ReductionPattern};

verus! {

/// Big-O complexity classes.
#[derive(Debug, Clone, Copy, PartialEq, Eq, Structural, Hash)]
pub enum ComplexityClass {
    /// O(1).
    Constant,
    /// O(log n).
    Logarithmic,
    /// O(n).
    Linear,
    /// O(n log n).
    Linearithmic,
    /// O(n^2).
    Quadratic,
    /// O(n^3).
    Cubic,
    /// O(n^k).
    Polynomial(u32),
    /// O(2^n).
    Exponential,
    /// O(n!).
    Factorial,
    /// Unknown complexity.
    Unknown,
}

impl Default for ComplexityClass {
    /// An unknown class.
    fn default() -> (r: ComplexityClass)
        ensures
            r == ComplexityClass::Unknown,
    {
        ComplexityClass::Unknown
    }
}

/// Numerator of a class's growth rank. `Polynomial(k)` for `k` of 0..3
/// collapses onto the named classes; for larger `k` its rank `6 - 1/k` lies
/// strictly between `Cubic` and `Exponential` and grows with `k`.
pub open spec fn rank_num(c: ComplexityClass) -> int {
    match c {
        ComplexityClass::Constant => 0,
        ComplexityClass::Logarithmic => 1,
        ComplexityClass::Linear => 2,
        ComplexityClass::Linearithmic => 3,
        ComplexityClass::Quadratic => 4,
        ComplexityClass::Cubic => 5,
        ComplexityClass::Polynomial(k) => if k == 0 { 0 } else if k == 1 { 2 } else if k == 2 { 4 } else if k == 3 { 5 } else { 6 * k - 1 },
        ComplexityClass::Exponential => 10,
        ComplexityClass::Factorial => 20,
        ComplexityClass::Unknown => 1000,
    }
}

/// Denominator of a class's growth rank (positive).
pub open spec fn rank_den(c: ComplexityClass) -> int {
    match c {
        ComplexityClass::Polynomial(k) => if k <= 3 { 1 } else { k as int },
        _ => 1,
    }
}

/// `a` grows strictly slower than `b`: its rank is smaller.
pub open spec fn better(a: ComplexityClass, b: ComplexityClass) -> bool {
    rank_num(a) * rank_den(b) < rank_num(b) * rank_den(a)
}

/// `a` and `b` denote the same growth rate.
pub open spec fn same_growth(a: ComplexityClass, b: ComplexityClass) -> bool {
    rank_num(a) * rank_den(b) == rank_num(b) * rank_den(a)
}

impl ComplexityClass {
    /// The class as text.
    pub open spec fn spec_as_str(&self) -> Seq<char> {
        match *self {
            ComplexityClass::Constant => "O(1)"@,
            ComplexityClass::Logarithmic => "O(log n)"@,
            ComplexityClass::Linear => "O(n)"@,
            ComplexityClass::Linearithmic => "O(n log n)"@,
            ComplexityClass::Quadratic => "O(n²)"@,
            ComplexityClass::Cubic => "O(n³)"@,
            ComplexityClass::Polynomial(_) => "O(n^k)"@,
            ComplexityClass::Exponential => "O(2^n)"@,
            ComplexityClass::Factorial => "O(n!)"@,
            ComplexityClass::Unknown => "Unknown"@,
        }
    }

    /// The class as text.
    pub fn as_str(&self) -> (r: &'static str)
        ensures
            r@ == self.spec_as_str(),
    {
        match self {
            ComplexityClass::Constant => "O(1)",
            ComplexityClass::Logarithmic => "O(log n)",
            ComplexityClass::Linear => "O(n)",
            ComplexityClass::Linearithmic => "O(n log n)",
            ComplexityClass::Quadratic => "O(n²)",
            ComplexityClass::Cubic => "O(n³)",
            ComplexityClass::Polynomial(_) => "O(n^k)",
            ComplexityClass::Exponential => "O(2^n)",
            ComplexityClass::Factorial => "O(n!)",
            ComplexityClass::Unknown => "Unknown",
        }
    }

    /// The display text of the class: its `as_str`.
    pub fn display_string(&self) -> (r: String)
        ensures
            r@ == self.spec_as_str(),
    {
        self.as_str().to_owned()
    }

    fn rank(&self) -> (r: (u128, u128))
        ensures
            r.0 as int == rank_num(*self),
            r.1 as int == rank_den(*self),
            r.0 < 0x1_0000_0000_0000_0000,
            r.1 < 0x1_0000_0000_0000_0000,
    {
        match self {
            ComplexityClass::Constant => (0, 1),
            ComplexityClass::Logarithmic => (1, 1),
            ComplexityClass::Linear => (2, 1),
            ComplexityClass::Linearithmic => (3, 1),
            ComplexityClass::Quadratic => (4, 1),
            ComplexityClass::Cubic => (5, 1),
            ComplexityClass::Polynomial(k) => {
                let k = *k;
                if k == 0 {
                    (0, 1)
                } else if k == 1 {
                    (2, 1)
                } else if k == 2 {
                    (4, 1)
                } else if k == 3 {
                    (5, 1)
                } else {
                    (6 * (k as u128) - 1, k as u128)
                }
            },
            ComplexityClass::Exponential => (10, 1),
            ComplexityClass::Factorial => (20, 1),
            ComplexityClass::Unknown => (1000, 1),
        }
    }

    /// Whether this class is asymptotically better (grows strictly slower)
    /// than `other`. This is a strict weak order: irreflexive, asymmetric and
    /// transitive; classes of the same growth rate (`Cubic` and
    /// `Polynomial(3)`, `Constant` and `Polynomial(0)`) are tied.
    pub fn is_better_than(&self, other: &ComplexityClass) -> (r: bool)
        ensures
            r == better(*self, *other),
    {
        let (an, ad) = self.rank();
        let (bn, bd) = other.rank();
        assert(an * bd < 0x1_0000_0000_0000_0000_0000_0000_0000_0000) by (nonlinear_arith)
            requires an < 0x1_0000_0000_0000_0000, bd < 0x1_0000_0000_0000_0000;
        assert(bn * ad < 0x1_0000_0000_0000_0000_0000_0000_0000_0000) by (nonlinear_arith)
            requires bn < 0x1_0000_0000_0000_0000, ad < 0x1_0000_0000_0000_0000;
        an * bd < bn * ad
    }
}

/// Ranks have positive denominators.
pub proof fn lemma_rank_den_positive(c: ComplexityClass)
    ensures
        rank_den(c) > 0,
        rank_num(c) >= 0,
{
}

/// No class is better than itself.
pub proof fn law_better_irreflexive(a: ComplexityClass)
    ensures
        !better(a, a),
{
}

/// Better-than is asymmetric.
pub proof fn law_better_asymmetric(a: ComplexityClass, b: ComplexityClass)
    ensures
        better(a, b) ==> !better(b, a),
{
}

/// Better-than is transitive.
pub proof fn law_better_transitive(a: ComplexityClass, b: ComplexityClass, c: ComplexityClass)
    requires
        better(a, b),
        better(b, c),
    ensures
        better(a, c),
{
    lemma_rank_den_positive(a);
    lemma_rank_den_positive(b);
    lemma_rank_den_positive(c);
    let (an, ad, bn, bd, cn, cd) = (rank_num(a), rank_den(a), rank_num(b), rank_den(b), rank_num(c), rank_den(c));
    assert(an * cd < cn * ad) by (nonlinear_arith)
        requires
            ad > 0, bd > 0, cd > 0,
            an * bd < bn * ad,
            bn * cd < cn * bd;
}

/// Classes that neither beats are tied, and ties are transitive (so the
/// incomparability of the weak order is an equivalence).
pub proof fn law_ties_transitive(a: ComplexityClass, b: ComplexityClass, c: ComplexityClass)
    requires
        !better(a, b) && !better(b, a),
        !better(b, c) && !better(c, b),
    ensures
        same_growth(a, b),
        !better(a, c) && !better(c, a),
{
    lemma_rank_den_positive(a);
    lemma_rank_den_positive(b);
    lemma_rank_den_positive(c);
    let (an, ad, bn, bd, cn, cd) = (rank_num(a), rank_den(a), rank_num(b), rank_den(b), rank_num(c), rank_den(c));
    assert(an * cd == cn * ad) by (nonlinear_arith)
        requires
            ad > 0, bd > 0, cd > 0,
            an * bd == bn * ad,
            bn * cd == cn * bd;
}

/// `Polynomial(k)` for `k` of 0..3 ties with `Constant`, `Linear`,
/// `Quadratic` and `Cubic`; for larger `k` it is strictly between `Cubic` and
/// `Exponential`, and grows with `k`.
pub proof fn law_polynomial_placement(k: u32, j: u32)
    ensures
        same_growth(ComplexityClass::Polynomial(0), ComplexityClass::Constant),
        same_growth(ComplexityClass::Polynomial(1), ComplexityClass::Linear),
        same_growth(ComplexityClass::Polynomial(2), ComplexityClass::Quadratic),
        same_growth(ComplexityClass::Polynomial(3), ComplexityClass::Cubic),
        k >= 4 ==> better(ComplexityClass::Cubic, ComplexityClass::Polynomial(k)),
        k >= 4 ==> better(ComplexityClass::Polynomial(k), ComplexityClass::Exponential),
        4 <= k < j ==> better(ComplexityClass::Polynomial(k), ComplexityClass::Polynomial(j)),
{
    if k >= 4 {
        assert(6 * (k as int) - 1 < 10 * (k as int));
    }
    if 4 <= k < j {
        let (ki, ji) = (k as int, j as int);
        assert((6 * ki - 1) * ji < (6 * ji - 1) * ki) by (nonlinear_arith)
            requires 4 <= ki < ji;
    }
}

/// An estimate of a function's complexity, with a confidence in thousandths.
#[derive(Debug, Clone)]
pub struct ComplexityEstimate {
    /// The complexity class.
    pub class: ComplexityClass,
    /// Confidence in the estimate, from 0 to 1000.
    pub confidence_permille: u32,
    /// Explanation.
    pub justification: String,
}

/// Signature characterizing an algorithm.
#[derive(Debug, Clone)]
pub struct AlgorithmSignature {
    /// Loop structure characteristics.
    pub loop_structure: Option<LoopStructure>,
    /// Recursion pattern (if any).
    pub recursion_pattern: Option<RecursionPattern>,
    /// Estimated time complexity.
    pub time_complexity: Option<ComplexityEstimate>,
    /// Estimated space complexity.
    pub space_complexity: Option<ComplexityEstimate>,
}

impl Default for AlgorithmSignature {
    /// An empty signature, as [`AlgorithmSignature::new`] makes it.
    fn default() -> (r: AlgorithmSignature)
        ensures
            r.loop_structure is None,
            r.recursion_pattern is None,
            r.time_complexity is None,
            r.space_complexity is None,
    {
        AlgorithmSignature::new()
    }
}

impl AlgorithmSignature {
    /// An empty signature.
    pub fn new() -> (r: AlgorithmSignature)
        ensures
            r.loop_structure is None,
            r.recursion_pattern is None,
            r.time_complexity is None,
            r.space_complexity is None,
    {
        AlgorithmSignature { loop_structure: None, recursion_pattern: None, time_complexity: None, space_complexity: None }
    }

    /// Sets the loop structure.
    pub fn with_loop_structure(self, structure: LoopStructure) -> (r: AlgorithmSignature)
        ensures
            r == (AlgorithmSignature { loop_structure: Some(structure), ..self }),
    {
        AlgorithmSignature { loop_structure: Some(structure), ..self }
    }

    /// Sets the recursion pattern.
    pub fn with_recursion(self, pattern: RecursionPattern) -> (r: AlgorithmSignature)
        ensures
            r == (AlgorithmSignature { recursion_pattern: Some(pattern), ..self }),
    {
        AlgorithmSignature { recursion_pattern: Some(pattern), ..self }
    }

    /// Sets the time complexity estimate.
    pub fn with_time_complexity(self, estimate: ComplexityEstimate) -> (r: AlgorithmSignature)
        ensures
            r == (AlgorithmSignature { time_complexity: Some(estimate), ..self }),
    {
        AlgorithmSignature { time_complexity: Some(estimate), ..self }
    }

    /// Sets the space complexity estimate.
    pub fn with_space_complexity(self, estimate: ComplexityEstimate) -> (r: AlgorithmSignature)
        ensures
            r == (AlgorithmSignature { space_complexity: Some(estimate), ..self }),
    {
        AlgorithmSignature { space_complexity: Some(estimate), ..self }
    }
}

} // verus!
