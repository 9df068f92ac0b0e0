//! Decomposition of a similarity score into per-dimension contributions,
//! for integer-valued vectors, in exact arithmetic.
use vstd::prelude::*;

use crate::types::{DimensionContribution, ScoreExplanation, is_descending, is_top_ranked, magnitude};

verus! {

/// How many dimensions an explanation keeps when the caller names no count.
pub const DEFAULT_TOP_DIMENSIONS: usize = 10;

/// The similarity metrics a collection can be configured with.
#[derive(Copy, Clone, Debug, PartialEq, Eq, Structural)]
pub enum Distance {
    Cosine,
    Euclid,
    Dot,
    Manhattan,
}

/// Every coordinate is zero (the norm is zero).
pub open spec fn is_zero_vector(v: Seq<i32>) -> bool {
    forall|i: int| 0 <= i < v.len() ==> v[i] == 0
}

/// Length of the shorter vector: the decomposition pairs coordinates up to it.
pub open spec fn paired_len(v1: Seq<i32>, v2: Seq<i32>) -> nat {
    if v1.len() < v2.len() {
        v1.len()
    } else {
        v2.len()
    }
}

/// Contribution of one coordinate pair under `d`. For cosine this is the
/// numerator `a * b`: the division by the norm product, a positive factor
/// shared by every dimension, is left to whoever needs the normalised value.
pub open spec fn term(d: Distance, a: int, b: int) -> int {
    match d {
        Distance::Dot => a * b,
        Distance::Cosine => a * b,
        Distance::Euclid => -((a - b) * (a - b)),
        Distance::Manhattan => -magnitude(a - b),
    }
}

/// The contributions of `v1` against `v2` under `d`, dimension by dimension.
/// Cosine with a zero-norm vector gives zero for every paired coordinate.
pub open spec fn expected_contributions(d: Distance, v1: Seq<i32>, v2: Seq<i32>) -> Seq<
    DimensionContribution,
> {
    if d == Distance::Cosine && (is_zero_vector(v1) || is_zero_vector(v2)) {
        Seq::new(
            paired_len(v1, v2),
            |i: int| DimensionContribution { dimension: i as usize, contribution: 0 },
        )
    } else {
        Seq::new(
            paired_len(v1, v2),
            |i: int|
                DimensionContribution {
                    dimension: i as usize,
                    contribution: term(d, v1[i] as int, v2[i] as int) as i128,
                },
        )
    }
}

/// Sum of the first `n` contributions.
pub open spec fn contribution_sum(c: Seq<DimensionContribution>, n: nat) -> int
    decreases n,
{
    if n == 0 {
        0
    } else {
        contribution_sum(c, (n - 1) as nat) + c[n - 1].contribution as int
    }
}

/// Dot product of the first `n` coordinates.
pub open spec fn dot_product(v1: Seq<i32>, v2: Seq<i32>, n: nat) -> int
    decreases n,
{
    if n == 0 {
        0
    } else {
        dot_product(v1, v2, (n - 1) as nat) + v1[n - 1] * v2[n - 1]
    }
}

/// Squared Euclidean distance over the first `n` coordinates.
pub open spec fn squared_distance(v1: Seq<i32>, v2: Seq<i32>, n: nat) -> int
    decreases n,
{
    if n == 0 {
        0
    } else {
        squared_distance(v1, v2, (n - 1) as nat) + (v1[n - 1] - v2[n - 1]) * (v1[n - 1] - v2[n
            - 1])
    }
}

/// L1 distance over the first `n` coordinates.
pub open spec fn manhattan_distance(v1: Seq<i32>, v2: Seq<i32>, n: nat) -> int
    decreases n,
{
    if n == 0 {
        0
    } else {
        manhattan_distance(v1, v2, (n - 1) as nat) + magnitude(v1[n - 1] - v2[n - 1])
    }
}

fn product_term(a: i32, b: i32) -> (r: i128)
    ensures
        r as int == a as int * b as int,
{
    let x = a as i128;
    let y = b as i128;
    assert(-0x8000_0000 <= x <= 0x7fff_ffff && -0x8000_0000 <= y <= 0x7fff_ffff);
    assert(-0x4000_0000_0000_0000 <= x * y <= 0x4000_0000_0000_0000) by (nonlinear_arith)
        requires
            -0x8000_0000 <= x <= 0x7fff_ffff,
            -0x8000_0000 <= y <= 0x7fff_ffff,
    ;
    x * y
}

fn squared_gap_term(a: i32, b: i32) -> (r: i128)
    ensures
        r as int == -((a as int - b as int) * (a as int - b as int)),
{
    let d = a as i128 - b as i128;
    assert(-0x1_0000_0000 <= d <= 0x1_0000_0000);
    assert(0 <= d * d <= 0x1_0000_0000_0000_0000) by (nonlinear_arith)
        requires
            -0x1_0000_0000 <= d <= 0x1_0000_0000,
    ;
    -(d * d)
}

fn absolute_gap_term(a: i32, b: i32) -> (r: i128)
    ensures
        r as int == -magnitude(a as int - b as int),
{
    let d = a as i128 - b as i128;
    if d < 0 {
        d
    } else {
        -d
    }
}

/// Dot product: each contribution is `v1[i] * v2[i]`.
pub fn dot_product_contributions(v1: &[i32], v2: &[i32]) -> (r: Vec<DimensionContribution>)
    ensures
        r@ == expected_contributions(Distance::Dot, v1@, v2@),
{
    let n = if v1.len() < v2.len() {
        v1.len()
    } else {
        v2.len()
    };
    let mut r: Vec<DimensionContribution> = Vec::new();
    let mut i: usize = 0;
    while i < n
        invariant
            n == paired_len(v1@, v2@),
            i <= n,
            r@ =~= expected_contributions(Distance::Dot, v1@, v2@).take(i as int),
        decreases n - i,
    {
        r.push(DimensionContribution { dimension: i, contribution: product_term(v1[i], v2[i]) });
        i = i + 1;
    }
    r
}

/// Euclidean: each contribution is `-(v1[i] - v2[i])^2`, never positive.
pub fn euclidean_contributions(v1: &[i32], v2: &[i32]) -> (r: Vec<DimensionContribution>)
    ensures
        r@ == expected_contributions(Distance::Euclid, v1@, v2@),
{
    let n = if v1.len() < v2.len() {
        v1.len()
    } else {
        v2.len()
    };
    let mut r: Vec<DimensionContribution> = Vec::new();
    let mut i: usize = 0;
    while i < n
        invariant
            n == paired_len(v1@, v2@),
            i <= n,
            r@ =~= expected_contributions(Distance::Euclid, v1@, v2@).take(i as int),
        decreases n - i,
    {
        r.push(
            DimensionContribution { dimension: i, contribution: squared_gap_term(v1[i], v2[i]) },
        );
        i = i + 1;
    }
    r
}

/// Manhattan: each contribution is `-|v1[i] - v2[i]|`, never positive.
pub fn manhattan_contributions(v1: &[i32], v2: &[i32]) -> (r: Vec<DimensionContribution>)
    ensures
        r@ == expected_contributions(Distance::Manhattan, v1@, v2@),
{
    let n = if v1.len() < v2.len() {
        v1.len()
    } else {
        v2.len()
    };
    let mut r: Vec<DimensionContribution> = Vec::new();
    let mut i: usize = 0;
    while i < n
        invariant
            n == paired_len(v1@, v2@),
            i <= n,
            r@ =~= expected_contributions(Distance::Manhattan, v1@, v2@).take(i as int),
        decreases n - i,
    {
        r.push(
            DimensionContribution { dimension: i, contribution: absolute_gap_term(v1[i], v2[i]) },
        );
        i = i + 1;
    }
    r
}

fn all_zero(v: &[i32]) -> (r: bool)
    ensures
        r == is_zero_vector(v@),
{
    let mut i: usize = 0;
    while i < v.len()
        invariant
            i <= v@.len(),
            forall|j: int| 0 <= j < i ==> v@[j] == 0,
        decreases v@.len() - i,
    {
        if v[i] != 0 {
            return false;
        }
        i = i + 1;
    }
    true
}

/// Cosine: each contribution is the numerator `v1[i] * v2[i]` of
/// `v1[i] * v2[i] / (|v1| * |v2|)`; when either norm is zero every
/// contribution is zero.
pub fn cosine_contributions(v1: &[i32], v2: &[i32]) -> (r: Vec<DimensionContribution>)
    ensures
        r@ == expected_contributions(Distance::Cosine, v1@, v2@),
{
    let n = if v1.len() < v2.len() {
        v1.len()
    } else {
        v2.len()
    };
    let mut r: Vec<DimensionContribution> = Vec::new();
    let mut i: usize = 0;
    if all_zero(v1) || all_zero(v2) {
        while i < n
            invariant
                is_zero_vector(v1@) || is_zero_vector(v2@),
                n == paired_len(v1@, v2@),
                i <= n,
                r@ =~= expected_contributions(Distance::Cosine, v1@, v2@).take(i as int),
            decreases n - i,
        {
            r.push(DimensionContribution { dimension: i, contribution: 0 });
            i = i + 1;
        }
        return r;
    }
    while i < n
        invariant
            !is_zero_vector(v1@) && !is_zero_vector(v2@),
            n == paired_len(v1@, v2@),
            i <= n,
            r@ =~= expected_contributions(Distance::Cosine, v1@, v2@).take(i as int),
        decreases n - i,
    {
        r.push(DimensionContribution { dimension: i, contribution: product_term(v1[i], v2[i]) });
        i = i + 1;
    }
    r
}

/// Per-dimension contributions under the chosen metric.
pub fn compute_contributions(distance: Distance, v1: &[i32], v2: &[i32]) -> (r: Vec<
    DimensionContribution,
>)
    ensures
        r@ == expected_contributions(distance, v1@, v2@),
{
    match distance {
        Distance::Dot => dot_product_contributions(v1, v2),
        Distance::Cosine => cosine_contributions(v1, v2),
        Distance::Euclid => euclidean_contributions(v1, v2),
        Distance::Manhattan => manhattan_contributions(v1, v2),
    }
}

/// The `top_n` (by default ten) dimensions that contributed most to the
/// similarity of `v1` and `v2`, strongest first.
pub fn compute_explanation(distance: Distance, v1: &[i32], v2: &[i32], top_n: Option<usize>) -> (r:
    ScoreExplanation)
    ensures
        is_top_ranked(
            r.top_dimensions@,
            expected_contributions(distance, v1@, v2@),
            match top_n {
                Some(n) => n as nat,
                None => DEFAULT_TOP_DIMENSIONS as nat,
            },
        ),
        is_descending(r.top_dimensions@),
{
    let contributions = compute_contributions(distance, v1, v2);
    let n = match top_n {
        Some(n) => n,
        None => DEFAULT_TOP_DIMENSIONS,
    };
    ScoreExplanation::new(contributions, n)
}

proof fn lemma_prefix_sums(d: Distance, v1: Seq<i32>, v2: Seq<i32>, n: nat)
    requires
        v1.len() == v2.len(),
        n <= v1.len(),
        d != Distance::Cosine,
    ensures
        contribution_sum(expected_contributions(d, v1, v2), n) == match d {
            Distance::Dot => dot_product(v1, v2, n),
            Distance::Euclid => -squared_distance(v1, v2, n),
            _ => -manhattan_distance(v1, v2, n),
        },
    decreases n,
{
    if n > 0 {
        lemma_prefix_sums(d, v1, v2, (n - 1) as nat);
        let a = v1[n - 1] as int;
        let b = v2[n - 1] as int;
        assert(-0x1_0000_0000 <= a - b <= 0x1_0000_0000);
        assert(0 <= (a - b) * (a - b) <= 0x1_0000_0000_0000_0000) by (nonlinear_arith)
            requires
                -0x1_0000_0000 <= a - b <= 0x1_0000_0000,
        ;
        assert(-0x4000_0000_0000_0000 <= a * b <= 0x4000_0000_0000_0000) by (nonlinear_arith)
            requires
                -0x8000_0000 <= a <= 0x7fff_ffff,
                -0x8000_0000 <= b <= 0x7fff_ffff,
        ;
    }
}

/// For vectors of equal length the contributions add up to the score they
/// explain: the dot product for the dot metric, minus the squared distance
/// for Euclid, minus the L1 distance for Manhattan.
pub proof fn lemma_contributions_sum_to_score(v1: Seq<i32>, v2: Seq<i32>)
    requires
        v1.len() == v2.len(),
    ensures
        contribution_sum(expected_contributions(Distance::Dot, v1, v2), v1.len())
            == dot_product(v1, v2, v1.len()),
        contribution_sum(expected_contributions(Distance::Euclid, v1, v2), v1.len())
            == -squared_distance(v1, v2, v1.len()),
        contribution_sum(expected_contributions(Distance::Manhattan, v1, v2), v1.len())
            == -manhattan_distance(v1, v2, v1.len()),
{
    lemma_prefix_sums(Distance::Dot, v1, v2, v1.len());
    lemma_prefix_sums(Distance::Euclid, v1, v2, v1.len());
    lemma_prefix_sums(Distance::Manhattan, v1, v2, v1.len());
}

/// Cosine against an all-zero vector: every contribution is exactly zero.
pub proof fn lemma_cosine_zero_norm(v1: Seq<i32>, v2: Seq<i32>)
    requires
        is_zero_vector(v1) || is_zero_vector(v2),
    ensures
        forall|i: int|
            0 <= i < expected_contributions(Distance::Cosine, v1, v2).len() ==> (#[trigger] expected_contributions(
                Distance::Cosine,
                v1,
                v2,
            )[i]).contribution == 0,
{
}

} // verus!
