use vstd::prelude::*;
use vstd::set_lib::{lemma_int_range, lemma_len_subset, lemma_subset_equality, set_int_range};

verus! {

/// Verbosity tiers of telemetry, from the coarsest to the finest.
#[derive(Copy, Clone, Debug, PartialEq, Eq, Structural, PartialOrd, Ord)]
pub enum DetailsLevel {
    /// App info, telemetry by endpoint, cluster status.
    Level0,
    /// System and hardware details, basic cluster and collection info.
    Level1,
    /// Consensus and peer info, detailed collection config.
    Level2,
    /// Detailed shard config and optimizer info.
    Level3,
    /// Segment level telemetry.
    Level4,
}

impl DetailsLevel {
    /// The tier's position in the order `Level0 < ... < Level4`.
    pub open spec fn rank(self) -> nat {
        match self {
            DetailsLevel::Level0 => 0,
            DetailsLevel::Level1 => 1,
            DetailsLevel::Level2 => 2,
            DetailsLevel::Level3 => 3,
            DetailsLevel::Level4 => 4,
        }
    }

    /// The tier for a raw number; numbers past the last tier clamp to it.
    pub open spec fn from_number(value: usize) -> DetailsLevel {
        if value == 0 {
            DetailsLevel::Level0
        } else if value == 1 {
            DetailsLevel::Level1
        } else if value == 2 {
            DetailsLevel::Level2
        } else if value == 3 {
            DetailsLevel::Level3
        } else {
            DetailsLevel::Level4
        }
    }
}

impl From<usize> for DetailsLevel {
    fn from(value: usize) -> (r: DetailsLevel)
        ensures
            r == DetailsLevel::from_number(value),
            r.rank() == if value < 4 { value as nat } else { 4 },
    {
        match value {
            0 => DetailsLevel::Level0,
            1 => DetailsLevel::Level1,
            2 => DetailsLevel::Level2,
            3 => DetailsLevel::Level3,
            _ => DetailsLevel::Level4,
        }
    }
}

impl vstd::std_specs::convert::FromSpecImpl<usize> for DetailsLevel {
    open spec fn obeys_from_spec() -> bool {
        true
    }

    open spec fn from_spec(v: usize) -> DetailsLevel {
        DetailsLevel::from_number(v)
    }
}

/// What a telemetry request asks to see.
#[derive(Copy, Clone, Debug)]
pub struct TelemetryDetail {
    pub level: DetailsLevel,
    pub histograms: bool,
}

impl TelemetryDetail {
    pub fn new(level: DetailsLevel, histograms: bool) -> (r: TelemetryDetail)
        ensures
            r.level == level,
            r.histograms == histograms,
    {
        TelemetryDetail { level, histograms }
    }
}

impl Default for TelemetryDetail {
    fn default() -> (r: TelemetryDetail)
        ensures
            r.level == DetailsLevel::Level0,
            !r.histograms,
    {
        TelemetryDetail { level: DetailsLevel::Level0, histograms: false }
    }
}

/// How much one coordinate contributed to a similarity score.
#[derive(Copy, Clone, Debug, PartialEq, Eq, Structural)]
pub struct DimensionContribution {
    pub dimension: usize,
    pub contribution: i128,
}

/// The dimensions that contributed most to a score, strongest first.
#[derive(Clone, Debug)]
pub struct ScoreExplanation {
    pub top_dimensions: Vec<DimensionContribution>,
}

/// Absolute value.
pub open spec fn magnitude(x: int) -> int {
    if x < 0 {
        -x
    } else {
        x
    }
}

/// Contribution `i` is listed before contribution `j`: it is larger in
/// absolute value, or as large and earlier in the input.
pub open spec fn ranks_before(s: Seq<DimensionContribution>, i: int, j: int) -> bool {
    let mi = magnitude(s[i].contribution as int);
    let mj = magnitude(s[j].contribution as int);
    mi > mj || (mi == mj && i < j)
}

/// `order` lists the positions of `s` by descending absolute contribution,
/// ties kept in input order (a stable sort).
pub open spec fn is_ranking(s: Seq<DimensionContribution>, order: Seq<int>) -> bool {
    &&& order.len() == s.len()
    &&& forall|k: int| 0 <= k < order.len() ==> 0 <= #[trigger] order[k] < s.len()
    &&& forall|a: int, b: int|
        0 <= a < b < order.len() ==> ranks_before(s, #[trigger] order[a], #[trigger] order[b])
}

/// `out` is the first `n` entries of the stable descending arrangement of `s`.
pub open spec fn is_top_ranked(out: Seq<DimensionContribution>, s: Seq<DimensionContribution>, n: nat) -> bool {
    &&& out.len() == if s.len() < n { s.len() } else { n }
    &&& exists|order: Seq<int>|
        #![trigger is_ranking(s, order)]
        is_ranking(s, order) && forall|k: int| 0 <= k < out.len() ==> #[trigger] out[k] == s[order[k]]
}

/// `out` never grows in absolute contribution along the sequence.
pub open spec fn is_descending(out: Seq<DimensionContribution>) -> bool {
    forall|a: int, b: int|
        0 <= a < b < out.len() ==> magnitude((#[trigger] out[a]).contribution as int) >= magnitude(
            (#[trigger] out[b]).contribution as int,
        )
}

impl Default for ScoreExplanation {
    fn default() -> (r: ScoreExplanation)
        ensures
            r.top_dimensions@.len() == 0,
    {
        ScoreExplanation { top_dimensions: Vec::new() }
    }
}

/// An explanation holds `min(N, number of contributions)` entries, in
/// non-increasing absolute contribution.
pub proof fn lemma_explanation_shape(out: Seq<DimensionContribution>, s: Seq<DimensionContribution>, n: nat)
    requires
        is_top_ranked(out, s, n),
    ensures
        out.len() == if n < s.len() { n } else { s.len() },
        is_descending(out),
{
    let order = choose|order: Seq<int>|
        #![trigger is_ranking(s, order)]
        is_ranking(s, order) && forall|k: int| 0 <= k < out.len() ==> #[trigger] out[k] == s[order[k]];
    assert forall|a: int, b: int| 0 <= a < b < out.len() implies magnitude(
        (#[trigger] out[a]).contribution as int,
    ) >= magnitude((#[trigger] out[b]).contribution as int) by {
        assert(out[a] == s[order[a]] && out[b] == s[order[b]]);
    }
}

/// A ranking lists every position of `s`.
proof fn lemma_ranking_covers(s: Seq<DimensionContribution>, order: Seq<int>, j: int)
    requires
        is_ranking(s, order),
        0 <= j < s.len(),
    ensures
        order.contains(j),
{
    assert(order.no_duplicates()) by {
        assert forall|a: int, b: int| 0 <= a < order.len() && 0 <= b < order.len() && a != b implies order[a]
            != order[b] by {
            if a < b {
                assert(ranks_before(s, order[a], order[b]));
            } else {
                assert(ranks_before(s, order[b], order[a]));
            }
        }
    }
    order.unique_seq_to_set();
    let range = set_int_range(0, s.len() as int);
    lemma_int_range(0, s.len() as int);
    assert(order.to_set().subset_of(range));
    lemma_len_subset(order.to_set(), range);
    lemma_subset_equality(order.to_set(), range);
    assert(range.contains(j));
    assert(order.to_set().contains(j));
}

proof fn lemma_rankings_agree_below(s: Seq<DimensionContribution>, o1: Seq<int>, o2: Seq<int>, k: int)
    requires
        is_ranking(s, o1),
        is_ranking(s, o2),
        0 <= k <= s.len(),
    ensures
        forall|p: int| 0 <= p < k ==> o1[p] == o2[p],
    decreases k,
{
    if k > 0 {
        lemma_rankings_agree_below(s, o1, o2, k - 1);
        let m = k - 1;
        let x = o1[m];
        let y = o2[m];
        if x != y {
            if ranks_before(s, x, y) {
                lemma_ranking_covers(s, o2, x);
                let p = choose|p: int| 0 <= p < o2.len() && o2[p] == x;
                if p > m {
                    assert(ranks_before(s, o2[m], o2[p]));
                } else {
                    assert(o1[p] == o2[p]);
                    if p < m {
                        assert(ranks_before(s, o1[p], o1[m]));
                    }
                }
            } else {
                assert(ranks_before(s, y, x));
                lemma_ranking_covers(s, o1, y);
                let q = choose|q: int| 0 <= q < o1.len() && o1[q] == y;
                if q > m {
                    assert(ranks_before(s, o1[m], o1[q]));
                } else {
                    assert(o1[q] == o2[q]);
                    if q < m {
                        assert(ranks_before(s, o2[q], o2[m]));
                    }
                }
            }
        }
    }
}

/// There is one stable descending arrangement: two explanations of the same
/// contributions with the same count are equal.
pub proof fn lemma_top_ranked_unique(
    out1: Seq<DimensionContribution>,
    out2: Seq<DimensionContribution>,
    s: Seq<DimensionContribution>,
    n: nat,
)
    requires
        is_top_ranked(out1, s, n),
        is_top_ranked(out2, s, n),
    ensures
        out1 == out2,
{
    let o1 = choose|order: Seq<int>|
        #![trigger is_ranking(s, order)]
        is_ranking(s, order) && forall|k: int| 0 <= k < out1.len() ==> #[trigger] out1[k] == s[order[k]];
    let o2 = choose|order: Seq<int>|
        #![trigger is_ranking(s, order)]
        is_ranking(s, order) && forall|k: int| 0 <= k < out2.len() ==> #[trigger] out2[k] == s[order[k]];
    lemma_rankings_agree_below(s, o1, o2, s.len() as int);
    assert forall|k: int| 0 <= k < out1.len() implies out1[k] == out2[k] by {
        assert(out1[k] == s[o1[k]] && out2[k] == s[o2[k]]);
    }
    assert(out1 =~= out2);
}

fn magnitude_of(x: i128) -> (r: u128)
    ensures
        r as int == magnitude(x as int),
{
    if x >= 0 {
        x as u128
    } else {
        (-(x + 1)) as u128 + 1
    }
}

impl ScoreExplanation {
    /// Ranks `contributions` by descending absolute value (a stable sort)
    /// and keeps the first `top_n`.
    pub fn new(contributions: Vec<DimensionContribution>, top_n: usize) -> (r: ScoreExplanation)
        ensures
            is_top_ranked(r.top_dimensions@, contributions@, top_n as nat),
            is_descending(r.top_dimensions@),
    {
        let s = &contributions;
        let n = s.len();
        let mut order: Vec<usize> = Vec::new();
        let mut m: usize = 0;
        while m < n
            invariant
                n == s@.len(),
                m <= n,
                order@.len() == m,
                forall|k: int| 0 <= k < m ==> #[trigger] order@[k] < m,
                forall|a: int, b: int|
                    0 <= a < b < m ==> ranks_before(
                        s@,
                        (#[trigger] order@[a]) as int,
                        (#[trigger] order@[b]) as int,
                    ),
            decreases n - m,
        {
            let mag = magnitude_of(s[m].contribution);
            let mut p: usize = 0;
            while p < m && magnitude_of(s[order[p]].contribution) >= mag
                invariant
                    n == s@.len(),
                    m < n,
                    p <= m,
                    order@.len() == m,
                    forall|k: int| 0 <= k < m ==> #[trigger] order@[k] < m,
                    forall|q: int|
                        0 <= q < p ==> magnitude(s@[#[trigger] order@[q] as int].contribution as int)
                            >= mag as int,
                decreases m - p,
            {
                p = p + 1;
            }
            let ghost old_order = order@;
            order.insert(p, m);
            proof {
                assert forall|a: int, b: int| 0 <= a < b < m + 1 implies ranks_before(
                    s@,
                    (#[trigger] order@[a]) as int,
                    (#[trigger] order@[b]) as int,
                ) by {
                    if b < p {
                        assert(order@[a] == old_order[a] && order@[b] == old_order[b]);
                    } else if b == p {
                        assert(order@[a] == old_order[a]);
                    } else if a < p {
                        assert(order@[a] == old_order[a] && order@[b] == old_order[b - 1]);
                    } else if a == p {
                        assert(order@[b] == old_order[b - 1]);
                        if b - 1 > p {
                            assert(ranks_before(s@, old_order[p as int] as int, old_order[b - 1] as int));
                        }
                    } else {
                        assert(order@[a] == old_order[a - 1] && order@[b] == old_order[b - 1]);
                    }
                }
                assert forall|k: int| 0 <= k < m + 1 implies #[trigger] order@[k] < m + 1 by {
                    if k < p {
                        assert(order@[k] == old_order[k]);
                    } else if k > p {
                        assert(order@[k] == old_order[k - 1]);
                    }
                }
            }
            m = m + 1;
        }
        let keep = if n < top_n {
            n
        } else {
            top_n
        };
        let mut top: Vec<DimensionContribution> = Vec::new();
        let mut k: usize = 0;
        while k < keep
            invariant
                n == s@.len(),
                keep <= n,
                k <= keep,
                order@.len() == n,
                forall|j: int| 0 <= j < n ==> #[trigger] order@[j] < n,
                top@.len() == k,
                forall|j: int| 0 <= j < k ==> #[trigger] top@[j] == s@[order@[j] as int],
            decreases keep - k,
        {
            top.push(s[order[k]]);
            k = k + 1;
        }
        let ghost ord = order@.map_values(|i: usize| i as int);
        proof {
            assert(is_ranking(s@, ord));
            assert forall|a: int, b: int| 0 <= a < b < top@.len() implies magnitude(
                (#[trigger] top@[a]).contribution as int,
            ) >= magnitude((#[trigger] top@[b]).contribution as int) by {
                assert(ranks_before(s@, ord[a], ord[b]));
            }
            assert forall|j: int| 0 <= j < top@.len() implies #[trigger] top@[j] == s@[ord[j]] by {}
        }
        ScoreExplanation { top_dimensions: top }
    }
}

} // verus!
