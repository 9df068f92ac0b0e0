//! The decisions an orchestrator makes around its backing-store calls:
//! what to ask for, which partitions a request targets, how batched answers
//! are put back together, and how a search is explained.
use vstd::prelude::*;
use vstd::string::StringExecFns;

use crate::batching::{
    Coalescing, SelectorModel, ShardSelector, fits_groups, is_index_partition, nested_views, realign,
    realigned,
};
use crate::explain::{Distance, compute_explanation, expected_contributions};
use crate::types::{ScoreExplanation, is_descending, is_top_ranked, lemma_top_ranked_unique};

verus! {

/// How many dimensions a search explanation keeps.
pub const SEARCH_EXPLANATION_DIMENSIONS: usize = 10;

/// Errors of the backing store, handed to the caller unchanged, and the
/// orchestrator's own `ServiceError`.
#[derive(Clone, Debug)]
pub enum StorageError {
    BadInput { description: String },
    NotFound { description: String },
    ServiceError { description: String },
    Timeout { description: String },
    Forbidden { description: String },
}

/// A vector in one of the stored representations.
#[derive(Clone, Debug)]
pub enum VectorInternal {
    Dense(Vec<i32>),
    Sparse { indices: Vec<u32>, values: Vec<i32> },
    MultiDense(Vec<Vec<i32>>),
}

/// What a query asks for; only a nearest-neighbour query carries a vector.
#[derive(Clone, Debug)]
pub enum QueryEnum {
    Nearest(VectorInternal),
    RecommendBestScore,
    Discover,
    Context,
}

/// The vectors stored with a point.
#[derive(Clone, Debug)]
pub enum VectorStructInternal {
    Single(Vec<i32>),
    MultiDense(Vec<Vec<i32>>),
    Named(Vec<(String, VectorInternal)>),
}

impl VectorStructInternal {
    /// Named vectors are a map from name to vector: no name occurs twice.
    /// The list keeps the store's order, which decides the first dense one.
    pub open spec fn well_formed(&self) -> bool {
        match self {
            VectorStructInternal::Named(named) => forall|a: int, b: int|
                0 <= a < b < named@.len() ==> (#[trigger] named@[a]).0@ != (#[trigger] named@[b]).0@,
            _ => true,
        }
    }
}

/// Which vectors a request wants returned with its points.
#[derive(Clone, Debug)]
pub enum WithVector {
    Bool(bool),
    Selector(Vec<String>),
}

/// A search hit: the point, the rest of what the store returned for it
/// (score, payload, version), carried through unchanged, the vectors
/// returned with it, and its explanation when one was computed.
#[derive(Clone, Debug)]
pub struct ScoredPoint<P> {
    pub id: u64,
    pub details: P,
    pub vector: Option<VectorStructInternal>,
    pub score_explanation: Option<ScoreExplanation>,
}

/// The dense query vector of a nearest-neighbour query, if it has one.
pub open spec fn query_dense(query: QueryEnum) -> Option<Seq<i32>> {
    match query {
        QueryEnum::Nearest(VectorInternal::Dense(d)) => Some(d@),
        _ => None,
    }
}

/// The first dense vector among `named[i..]`.
pub open spec fn first_dense_from(named: Seq<(String, VectorInternal)>, i: int) -> Option<Seq<i32>>
    decreases named.len() - i,
{
    if i < 0 || i >= named.len() {
        None
    } else {
        match named[i].1 {
            VectorInternal::Dense(d) => Some(d@),
            _ => first_dense_from(named, i + 1),
        }
    }
}

/// The dense vector an explanation is computed against: the single vector,
/// or the first dense one among named vectors; none for multi-vectors.
pub open spec fn stored_dense(v: VectorStructInternal) -> Option<Seq<i32>> {
    match v {
        VectorStructInternal::Single(d) => Some(d@),
        VectorStructInternal::MultiDense(_) => None,
        VectorStructInternal::Named(named) => first_dense_from(named@, 0),
    }
}

/// The dense vector of a hit, if vectors came back with it.
pub open spec fn point_dense<P>(p: ScoredPoint<P>) -> Option<Seq<i32>> {
    match p.vector {
        Some(v) => stored_dense(v),
        None => None,
    }
}

/// The caller wants vectors returned.
pub open spec fn wants_vectors(w: Option<WithVector>) -> bool {
    match w {
        None => false,
        Some(WithVector::Bool(b)) => b,
        Some(WithVector::Selector(_)) => true,
    }
}

fn copy_vector(v: &Vec<i32>) -> (r: Vec<i32>)
    ensures
        r@ == v@,
{
    let mut r: Vec<i32> = Vec::new();
    let mut i: usize = 0;
    while i < v.len()
        invariant
            i <= v@.len(),
            r@ == v@.take(i as int),
        decreases v@.len() - i,
    {
        r.push(v[i]);
        assert(r@ =~= v@.take(i as int + 1));
        i = i + 1;
    }
    assert(r@ =~= v@);
    r
}

/// The dense vector of a nearest-neighbour query; sparse and multi-vector
/// queries, and queries of other kinds, have none.
pub fn extract_query_vector(query: &QueryEnum) -> (r: Option<Vec<i32>>)
    ensures
        r matches Some(v) ==> query_dense(*query) == Some(v@),
        r is None ==> query_dense(*query) is None,
{
    match query {
        QueryEnum::Nearest(VectorInternal::Dense(dense)) => Some(copy_vector(dense)),
        _ => None,
    }
}

/// The single stored vector, or the first dense one among named vectors.
pub fn extract_dense_vector_from_struct(vector_struct: &VectorStructInternal) -> (r: Option<Vec<i32>>)
    ensures
        r matches Some(v) ==> stored_dense(*vector_struct) == Some(v@),
        r is None ==> stored_dense(*vector_struct) is None,
{
    match vector_struct {
        VectorStructInternal::Single(dense) => Some(copy_vector(dense)),
        VectorStructInternal::MultiDense(_) => None,
        VectorStructInternal::Named(named) => {
            let mut i: usize = 0;
            while i < named.len()
                invariant
                    i <= named@.len(),
                    stored_dense(*vector_struct) == first_dense_from(named@, 0),
                    first_dense_from(named@, 0) == first_dense_from(named@, i as int),
                decreases named@.len() - i,
            {
                if let VectorInternal::Dense(dense) = &named[i].1 {
                    assert(first_dense_from(named@, i as int) == Some(dense@));
                    return Some(copy_vector(dense));
                }
                i = i + 1;
            }
            None
        },
    }
}

/// Whether the caller asked for vectors to be returned: not when it said
/// nothing or said `false`.
pub fn vectors_requested(with_vector: &Option<WithVector>) -> (r: bool)
    ensures
        r == wants_vectors(*with_vector),
{
    match with_vector {
        None => false,
        Some(WithVector::Bool(b)) => *b,
        Some(WithVector::Selector(_)) => true,
    }
}

/// The vector selection to send to the store: an explained search needs
/// the vectors of its hits, so it asks for all of them.
pub fn vectors_to_fetch(with_explanation: bool, with_vector: Option<WithVector>) -> (r: Option<
    WithVector,
>)
    ensures
        with_explanation ==> r == Some(WithVector::Bool(true)),
        !with_explanation ==> r == with_vector,
{
    if with_explanation {
        Some(WithVector::Bool(true))
    } else {
        with_vector
    }
}

/// The metric an explanation uses: the collection's, or cosine when it
/// could not be resolved.
pub open spec fn metric_or_default(distance: Option<Distance>) -> Distance {
    match distance {
        Some(d) => d,
        None => Distance::Cosine,
    }
}

/// `out` is `points` after explanation: each hit with a dense vector got an
/// explanation of the query against it (the ten strongest dimensions under
/// `distance`), the others kept theirs; vectors are dropped unless
/// `keep_vectors`.
pub open spec fn is_explained<P>(
    out: Seq<ScoredPoint<P>>,
    points: Seq<ScoredPoint<P>>,
    query: Seq<i32>,
    distance: Distance,
    keep_vectors: bool,
) -> bool {
    &&& out.len() == points.len()
    &&& forall|k: int|
        0 <= k < out.len() ==> {
            let o = #[trigger] out[k];
            let p = points[k];
            &&& o.id == p.id
            &&& o.details == p.details
            &&& o.vector == if keep_vectors {
                p.vector
            } else {
                None
            }
            &&& match point_dense(p) {
                Some(d) => match o.score_explanation {
                    Some(e) => is_top_ranked(
                        e.top_dimensions@,
                        expected_contributions(distance, query, d),
                        SEARCH_EXPLANATION_DIMENSIONS as nat,
                    ) && is_descending(e.top_dimensions@),
                    None => false,
                },
                None => o.score_explanation == p.score_explanation,
            }
        }
}

/// Attaches to each hit with a dense vector the explanation of `query`
/// against it, then drops the vectors unless `keep_vectors`.
pub fn explain_points<P>(
    points: Vec<ScoredPoint<P>>,
    query: &Vec<i32>,
    distance: Distance,
    keep_vectors: bool,
) -> (r: Vec<ScoredPoint<P>>)
    ensures
        is_explained(r@, points@, query@, distance, keep_vectors),
{
    let ghost orig = points@;
    let mut points = points;
    let n = points.len();
    let mut i: usize = 0;
    while i < n
        invariant
            n == orig.len(),
            points@.len() == n,
            i <= n,
            is_explained(points@.take(i as int), orig.take(i as int), query@, distance, keep_vectors),
            forall|k: int| i <= k < n ==> #[trigger] points@[k] == orig[k],
        decreases n - i,
    {
        let mut point = points.remove(i);
        let dense = match &point.vector {
            Some(v) => extract_dense_vector_from_struct(v),
            None => None,
        };
        if let Some(d) = dense {
            let e = compute_explanation(
                distance,
                query.as_slice(),
                d.as_slice(),
                Some(SEARCH_EXPLANATION_DIMENSIONS),
            );
            point.score_explanation = Some(e);
        }
        if !keep_vectors {
            point.vector = None;
        }
        points.insert(i, point);
        proof {
            assert(points@.take(i as int + 1) =~= points@.take(i as int).push(points@[i as int]));
            assert(orig.take(i as int + 1) =~= orig.take(i as int).push(orig[i as int]));
            assert forall|k: int| 0 <= k < i + 1 implies #[trigger] points@.take(i as int + 1)[k]
                == points@[k] by {}
        }
        i = i + 1;
    }
    assert(points@.take(n as int) =~= points@);
    assert(orig.take(n as int) =~= orig);
    points
}

/// `out` is `points` with the vectors dropped unless `keep_vectors`.
pub open spec fn is_stripped<P>(out: Seq<ScoredPoint<P>>, points: Seq<ScoredPoint<P>>, keep_vectors: bool) -> bool {
    &&& out.len() == points.len()
    &&& forall|k: int|
        0 <= k < out.len() ==> {
            let o = #[trigger] out[k];
            let p = points[k];
            &&& o.id == p.id
            &&& o.details == p.details
            &&& o.score_explanation == p.score_explanation
            &&& o.vector == if keep_vectors {
                p.vector
            } else {
                None
            }
        }
}

/// Drops the vectors of every hit unless `keep_vectors`.
pub fn strip_vectors<P>(points: Vec<ScoredPoint<P>>, keep_vectors: bool) -> (r: Vec<ScoredPoint<P>>)
    ensures
        is_stripped(r@, points@, keep_vectors),
{
    let ghost orig = points@;
    let mut points = points;
    if keep_vectors {
        return points;
    }
    let n = points.len();
    let mut i: usize = 0;
    while i < n
        invariant
            n == orig.len(),
            points@.len() == n,
            i <= n,
            is_stripped(points@.take(i as int), orig.take(i as int), false),
            forall|k: int| i <= k < n ==> #[trigger] points@[k] == orig[k],
        decreases n - i,
    {
        let mut point = points.remove(i);
        point.vector = None;
        points.insert(i, point);
        assert forall|k: int| 0 <= k < i + 1 implies #[trigger] points@.take(i as int + 1)[k]
            == points@[k] by {}
        i = i + 1;
    }
    assert(points@.take(n as int) =~= points@);
    assert(orig.take(n as int) =~= orig);
    points
}

/// The first answer of a batch; an empty batch is the orchestrator's own
/// error, since every call it makes asks for at least one answer.
pub fn first_of_batch<T>(batch: Vec<Vec<T>>, description: &str) -> (r: Result<
    Vec<T>,
    StorageError,
>)
    ensures
        batch@.len() > 0 ==> r == Ok::<Vec<T>, StorageError>(batch@[0]),
        batch@.len() == 0 ==> (r matches Err(StorageError::ServiceError { description: d })
            && d@ == description@),
{
    let mut batch = batch;
    if batch.len() == 0 {
        Err(StorageError::ServiceError { description: String::from_str(description) })
    } else {
        Ok(batch.remove(0))
    }
}

/// The end of an explained single-query search: the first answer of the
/// batch, explained when explanation was asked for and the query had a
/// dense vector, with vectors dropped again when the caller had not asked
/// for them.
pub fn complete_core_search<P>(
    batch: Vec<Vec<ScoredPoint<P>>>,
    with_explanation: bool,
    query_vector: Option<Vec<i32>>,
    distance: Option<Distance>,
    original_with_vector: &Option<WithVector>,
) -> (r: Result<Vec<ScoredPoint<P>>, StorageError>)
    ensures
        batch@.len() == 0 ==> (r matches Err(StorageError::ServiceError { description: d })
            && d@ == "Empty search result"@),
        batch@.len() > 0 ==> r is Ok,
        r matches Ok(out) ==> {
            let keep = !with_explanation || wants_vectors(*original_with_vector);
            match query_vector {
                Some(q) if with_explanation => is_explained(
                    out@,
                    batch@[0]@,
                    q@,
                    metric_or_default(distance),
                    keep,
                ),
                _ => is_stripped(out@, batch@[0]@, keep),
            }
        },
{
    let results = match first_of_batch(batch, "Empty search result") {
        Ok(v) => v,
        Err(e) => {
            return Err(e);
        },
    };
    let keep = !with_explanation || vectors_requested(original_with_vector);
    match query_vector {
        Some(q) if with_explanation => {
            let d = match distance {
                Some(d) => d,
                None => Distance::Cosine,
            };
            Ok(explain_points(results, &q, d, keep))
        },
        _ => Ok(strip_vectors(results, keep)),
    }
}

/// For a search that asked for explanations but not for vectors, whose
/// hits came back unexplained: a hit carries an explanation exactly when it
/// came back with a dense vector, and no hit carries vectors.
pub proof fn lemma_explained_search_shape<P>(
    out: Seq<ScoredPoint<P>>,
    points: Seq<ScoredPoint<P>>,
    query: Seq<i32>,
    distance: Distance,
)
    requires
        is_explained(out, points, query, distance, false),
        forall|k: int| 0 <= k < points.len() ==> (#[trigger] points[k]).score_explanation is None,
    ensures
        out.len() == points.len(),
        forall|k: int|
            0 <= k < out.len() ==> ((#[trigger] out[k]).score_explanation is Some <==> point_dense(
                points[k],
            ) is Some),
        forall|k: int| 0 <= k < out.len() ==> (#[trigger] out[k]).vector is None,
{
    assert forall|k: int| 0 <= k < out.len() implies ((#[trigger] out[k]).score_explanation is Some
        <==> point_dense(points[k]) is Some) by {
        assert(points[k].score_explanation is None);
    }
}

/// The end of a coalesced search batch. The partitions were searched
/// together and any failure, a timeout on one partition included, fails
/// the whole batch with that error and no partial answer. Otherwise each
/// request's answer is put back at its place; a partition that answered a
/// different number of requests than it was sent is the orchestrator's own
/// error.
pub fn complete_search_batch<T>(c: &Coalescing, outcome: Result<Vec<Vec<T>>, StorageError>) -> (r:
    Result<Vec<T>, StorageError>)
    requires
        is_index_partition(*c, c.slots@.len()),
    ensures
        outcome matches Err(e) ==> r == Err::<Vec<T>, StorageError>(e),
        outcome matches Ok(res) ==> {
            &&& fits_groups(*c, nested_views(res@)) ==> (r matches Ok(out) && out@ == realigned(
                *c,
                nested_views(res@),
            ))
            &&& !fits_groups(*c, nested_views(res@)) ==> r matches Err(
                StorageError::ServiceError { .. },
            )
        },
{
    match outcome {
        Err(e) => Err(e),
        Ok(results) => match realign(c, results) {
            Some(out) => Ok(out),
            None => Err(
                StorageError::ServiceError {
                    description: String::from_str("Batch result does not match the requests"),
                },
            ),
        },
    }
}

/// The partitions a discovery request names.
#[derive(Clone, Debug)]
pub enum ShardKeySelector {
    ShardKey(u64),
    ShardKeys(Vec<u64>),
}

/// The selector for a discovery request: the partitions it names, or all
/// of them when it names none.
pub open spec fn discover_selector_value(key: Option<ShardKeySelector>) -> SelectorModel {
    match key {
        None => SelectorModel::All,
        Some(ShardKeySelector::ShardKey(k)) => SelectorModel::ShardKey(k),
        Some(ShardKeySelector::ShardKeys(ks)) => SelectorModel::ShardKeys(ks@),
    }
}

/// The selector of each discovery request of a batch, in order.
pub fn discover_shard_selectors(shard_keys: Vec<Option<ShardKeySelector>>) -> (r: Vec<ShardSelector>)
    ensures
        r@.len() == shard_keys@.len(),
        forall|i: int| 0 <= i < r@.len() ==> (#[trigger] r@[i])@ == discover_selector_value(shard_keys@[i]),
{
    let ghost orig = shard_keys@;
    let n = shard_keys.len();
    let mut rest = shard_keys;
    let mut r: Vec<ShardSelector> = Vec::new();
    while rest.len() > 0
        invariant
            r@.len() + rest@.len() == n,
            orig.len() == n,
            rest@ == orig.subrange(r@.len() as int, n as int),
            forall|i: int| 0 <= i < r@.len() ==> (#[trigger] r@[i])@ == discover_selector_value(orig[i]),
        decreases rest@.len(),
    {
        let key = rest.remove(0);
        let selector = match key {
            None => ShardSelector::All,
            Some(ShardKeySelector::ShardKey(k)) => ShardSelector::ShardKey(k),
            Some(ShardKeySelector::ShardKeys(ks)) => ShardSelector::ShardKeys(ks),
        };
        r.push(selector);
    }
    r
}

/// In an explained search each hit with a dense vector carries exactly the
/// explanation that `compute_explanation` gives for the query against that
/// vector with ten dimensions: the only one that meets its contract.
pub proof fn lemma_search_explanation_is_computed<P>(
    out: Seq<ScoredPoint<P>>,
    points: Seq<ScoredPoint<P>>,
    query: Seq<i32>,
    distance: Distance,
    keep_vectors: bool,
    k: int,
    d: Seq<i32>,
    e: ScoreExplanation,
)
    requires
        is_explained(out, points, query, distance, keep_vectors),
        0 <= k < points.len(),
        point_dense(points[k]) == Some(d),
        is_top_ranked(
            e.top_dimensions@,
            expected_contributions(distance, query, d),
            SEARCH_EXPLANATION_DIMENSIONS as nat,
        ),
    ensures
        out[k].score_explanation matches Some(x) && x.top_dimensions@ == e.top_dimensions@,
{
    let o = out[k];
    match o.score_explanation {
        Some(x) => {
            lemma_top_ranked_unique(
                x.top_dimensions@,
                e.top_dimensions@,
                expected_contributions(distance, query, d),
                SEARCH_EXPLANATION_DIMENSIONS as nat,
            );
        },
        None => {},
    }
}

} // verus!
