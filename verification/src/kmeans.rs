//! The discrete steps of k-means clustering: drawing the initial centroids
//! and assigning each point to its nearest centroid. Distances are the
//! caller's and enter as integer keys (see [`crate::order`]).

use vstd::prelude::*;
use rand::seq::IteratorRandom;

use crate::order::{first_min_index, index_of_min, pick, picked};

verus! {

/// `ids` holds each index at most once.
pub open spec fn distinct_ids(ids: Seq<usize>) -> bool {
    forall|a: int, b: int| 0 <= a < b < ids.len() ==> ids[a] != ids[b]
}

/// Draws `amount` distinct indices below `n` at random (all of them where
/// there are fewer).
///
/// Calls `IteratorRandom::choose_multiple` of `rand` on the range `0..n`
/// with the thread-local generator; its documentation promises `amount`
/// distinct elements of the iterator, or all of them where it has fewer.
/// Which indices come back, and in which order, is left open.
#[verifier::external_body]
fn sample_indices(n: usize, amount: usize) -> (r: Vec<usize>)
    ensures
        r@.len() == if amount <= n { amount } else { n },
        forall|k: int| 0 <= k < r@.len() ==> #[trigger] r@[k] < n,
        distinct_ids(r@),
{
    (0..n).choose_multiple(&mut rand::rng(), amount)
}

/// Draws the initial centroids: `n_clusters` distinct points of `data`, at
/// random; the drawn indices are picked out of the data by
/// [`crate::order::pick`]. There must be more points than clusters, and at least one
/// cluster.
pub fn initial_centroids<D: Copy>(data: &Vec<D>, n_clusters: usize) -> (r: Vec<D>)
    requires
        0 < n_clusters < data@.len(),
    ensures
        r@.len() == n_clusters,
        exists|ids: Seq<usize>|
            #![trigger picked(data@, ids)]
            {
                &&& ids.len() == n_clusters
                &&& distinct_ids(ids)
                &&& forall|k: int| 0 <= k < ids.len() ==> #[trigger] ids[k] < data@.len()
                &&& r@ == picked(data@, ids)
            },
{
    let ids = sample_indices(data.len(), n_clusters);
    pick(data, &ids)
}

/// The points whose nearest centroid is `c`, in order: `rows[p][j]` is the
/// key of the distance of point `p` from centroid `j`, and of several
/// nearest centroids the first counts.
pub open spec fn cluster_members(rows: Seq<Seq<i64>>, c: int) -> Seq<usize>
    decreases rows.len(),
{
    if rows.len() == 0 {
        seq![]
    } else {
        let rest = cluster_members(rows.drop_last(), c);
        if first_min_index(rows.last()) == c {
            rest.push((rows.len() - 1) as usize)
        } else {
            rest
        }
    }
}

/// The key tables of each point's distances.
pub open spec fn rows_of(dist_keys: Seq<Vec<i64>>) -> Seq<Seq<i64>> {
    dist_keys.map_values(|row: Vec<i64>| row@)
}

/// Assigns each point to its nearest centroid: `dist_keys[p][c]` is the key
/// of the distance of point `p` from centroid `c`. Cluster `c` lists, in
/// order, the points whose first nearest centroid is `c`.
pub fn assign_clusters(dist_keys: &Vec<Vec<i64>>, n_clusters: usize) -> (r: Vec<Vec<usize>>)
    requires
        n_clusters > 0,
        forall|p: int| 0 <= p < dist_keys@.len() ==> (#[trigger] dist_keys@[p])@.len() == n_clusters,
    ensures
        r@.len() == n_clusters,
        forall|c: int| 0 <= c < n_clusters ==> (#[trigger] r@[c])@ == cluster_members(rows_of(dist_keys@), c),
{
    let ghost rows = rows_of(dist_keys@);
    let mut nearest: Vec<usize> = Vec::new();
    let mut p: usize = 0;
    while p < dist_keys.len()
        invariant
            p <= dist_keys@.len(),
            rows == rows_of(dist_keys@),
            forall|q: int| 0 <= q < dist_keys@.len() ==> (#[trigger] dist_keys@[q])@.len() == n_clusters,
            n_clusters > 0,
            nearest@.len() == p,
            forall|q: int| 0 <= q < p ==> #[trigger] nearest@[q] == first_min_index(rows[q]) && nearest@[q] < n_clusters,
        decreases dist_keys.len() - p,
    {
        let c = match index_of_min(&dist_keys[p]) {
            Some(c) => c,
            None => 0,
        };
        assert(rows[p as int] == dist_keys@[p as int]@);
        nearest.push(c);
        p = p + 1;
    }
    let mut clusters: Vec<Vec<usize>> = Vec::new();
    let mut c: usize = 0;
    while c < n_clusters
        invariant
            c <= n_clusters,
            rows == rows_of(dist_keys@),
            nearest@.len() == rows.len(),
            forall|q: int| 0 <= q < rows.len() ==> #[trigger] nearest@[q] == first_min_index(rows[q]),
            clusters@.len() == c,
            forall|cc: int| 0 <= cc < c ==> (#[trigger] clusters@[cc])@ == cluster_members(rows, cc),
        decreases n_clusters - c,
    {
        let mut members: Vec<usize> = Vec::new();
        let mut q: usize = 0;
        while q < nearest.len()
            invariant
                q <= nearest@.len() == rows.len(),
                forall|qq: int| 0 <= qq < rows.len() ==> #[trigger] nearest@[qq] == first_min_index(rows[qq]),
                members@ == cluster_members(rows.take(q as int), c as int),
            decreases nearest.len() - q,
        {
            assert(rows.take(q + 1).drop_last() =~= rows.take(q as int));
            if nearest[q] == c {
                members.push(q);
            }
            q = q + 1;
        }
        assert(rows.take(rows.len() as int) =~= rows);
        clusters.push(members);
        c = c + 1;
    }
    clusters
}

/// Each point is in the cluster of its nearest centroid and in no other:
/// the clusters of [`assign_clusters`] partition the points.
pub proof fn lemma_clusters_partition(rows: Seq<Seq<i64>>, c: int, p: int)
    requires
        0 <= p < rows.len() <= usize::MAX,
    ensures
        cluster_members(rows, c).contains(p as usize) <==> first_min_index(rows[p]) == c,
    decreases rows.len(),
{
    let n = rows.len();
    let rest = cluster_members(rows.drop_last(), c);
    lemma_members_below(rows.drop_last(), c);
    if p < n - 1 {
        lemma_clusters_partition(rows.drop_last(), c, p);
        assert(rows.drop_last()[p] == rows[p]);
        if first_min_index(rows.last()) == c {
            assert(rest.push((n - 1) as usize).contains(p as usize) <==> rest.contains(p as usize)) by {
                let pushed = rest.push((n - 1) as usize);
                if pushed.contains(p as usize) {
                    let j = choose|j: int| 0 <= j < pushed.len() && pushed[j] == p as usize;
                    if j < rest.len() {
                        assert(rest[j] == p as usize);
                    }
                }
                if rest.contains(p as usize) {
                    let j = choose|j: int| 0 <= j < rest.len() && rest[j] == p as usize;
                    assert(rest.push((n - 1) as usize)[j] == p as usize);
                }
            }
        }
    } else {
        assert(rows.last() == rows[p]);
        if first_min_index(rows.last()) == c {
            assert(rest.push((n - 1) as usize)[rest.len() as int] == p as usize);
        } else {
            if rest.contains(p as usize) {
                let j = choose|j: int| 0 <= j < rest.len() && rest[j] == p as usize;
                assert(rest[j] < n - 1);
            }
        }
    }
}

proof fn lemma_members_below(rows: Seq<Seq<i64>>, c: int)
    ensures
        forall|j: int| 0 <= j < cluster_members(rows, c).len() ==> (#[trigger] cluster_members(rows, c)[j]) < rows.len(),
    decreases rows.len(),
{
    if rows.len() > 0 {
        lemma_members_below(rows.drop_last(), c);
        let rest = cluster_members(rows.drop_last(), c);
        if first_min_index(rows.last()) == c {
            assert forall|j: int| 0 <= j < rest.push((rows.len() - 1) as usize).len() implies #[trigger] rest.push((rows.len() - 1) as usize)[j] < rows.len() by {
                if j < rest.len() {
                    assert(rest.push((rows.len() - 1) as usize)[j] == rest[j]);
                }
            }
        }
    }
}

} // verus!
