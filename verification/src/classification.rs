//! Choices made while classifying the B-site environments: the order in
//! which the six X neighbours of a B site enter its descriptor, and the
//! member of each cluster that stands for it. Positions and distances are
//! the caller's; they enter through integer keys (see [`crate::order`]).

use vstd::prelude::*;

use crate::order::{
    first_min_index, ids_upto, index_of_max, index_of_min, keys_at, last_max_index, pick, picked,
    select_keys, sorted_by_keys, sorted_ids, swap_removed, identity_ids, lemma_swapped_bounds,
    is_permutation, lemma_first_min_index, lemma_last_max_index, lemma_sorted_ids_permutes,
};
use crate::types::{Error, ErrorView};

verus! {

/// The order of the neighbours in a descriptor: the one with the largest
/// `y` (the last of several), then the one with the smallest `y` among the
/// others (the first of several, counted in the order that removing the top
/// one leaves), then the rest by ascending angle in the `x`-`z` plane,
/// stably.
pub open spec fn x_order(y_keys: Seq<i64>, angle_keys: Seq<i64>) -> Seq<usize> {
    let top = last_max_index(y_keys);
    let rest1 = swap_removed(ids_upto(y_keys.len()), top);
    let b = first_min_index(keys_at(y_keys, rest1));
    let rest2 = swap_removed(rest1, b);
    seq![top as usize, rest1[b]] + sorted_ids(angle_keys, rest2)
}

/// The order of the neighbours takes each neighbour exactly once, so that
/// [`sort_x`] rearranges the positions without losing or repeating one.
pub proof fn lemma_x_order_permutes(y_keys: Seq<i64>, angle_keys: Seq<i64>)
    requires
        2 <= y_keys.len() <= usize::MAX,
        angle_keys.len() == y_keys.len(),
    ensures
        is_permutation(x_order(y_keys, angle_keys), y_keys.len()),
{
    let n = y_keys.len();
    lemma_last_max_index(y_keys);
    let top = last_max_index(y_keys);
    let all = ids_upto(n);
    assert forall|p: int| 0 <= p < all.len() implies #[trigger] all[p] < n by {}
    lemma_swapped_bounds(all, top, n);
    let rest1 = swap_removed(all, top);
    lemma_first_min_index(keys_at(y_keys, rest1));
    let b = first_min_index(keys_at(y_keys, rest1));
    lemma_swapped_bounds(rest1, b, n);
    let rest2 = swap_removed(rest1, b);
    lemma_sorted_ids_permutes(angle_keys, rest2);
    let sorted = sorted_ids(angle_keys, rest2);
    let o = x_order(y_keys, angle_keys);
    assert(o == seq![top as usize, rest1[b]] + sorted);
    assert forall|a: int| 0 <= a < o.len() implies #[trigger] o[a] < n by {
        if a >= 2 {
            assert(o[a] == sorted[a - 2]);
            assert(sorted.contains(sorted[a - 2]));
        }
    }
    assert forall|i: usize| i < n implies #[trigger] o.contains(i) by {
        assert(all[i as int] == i);
        assert(all.contains(i));
        if i == top as usize {
            assert(o[0] == i);
        } else if i == rest1[b] {
            assert(o[1] == i);
        } else {
            assert(sorted.contains(i));
            let p = choose|p: int| 0 <= p < sorted.len() && sorted[p] == i;
            assert(o[p + 2] == i);
        }
    }
}

/// Orders the six neighbour positions of a B site: the apical one on top,
/// the apical one below, then the equatorial ones by angle (see
/// [`x_order`]). `y_keys` and `angle_keys` are the keys of each position's
/// `y` coordinate and of its angle in the `x`-`z` plane. There must be at
/// least two positions.
pub fn sort_x<V: Copy>(positions: Vec<V>, y_keys: &Vec<i64>, angle_keys: &Vec<i64>) -> (r: Vec<V>)
    requires
        positions@.len() >= 2,
        y_keys@.len() == positions@.len(),
        angle_keys@.len() == positions@.len(),
    ensures
        r@ == picked(positions@, x_order(y_keys@, angle_keys@)),
        r@.len() == positions@.len(),
{
    let n = positions.len();
    let top = match index_of_max(y_keys) {
        Some(i) => i,
        None => 0,
    };
    let mut ids = identity_ids(n);
    let ghost all = ids@;
    let _ = ids.swap_remove(top);
    proof {
        assert(ids@ == swap_removed(all, top as int));
        lemma_swapped_bounds(all, top as int, n as nat);
    }
    let yk = select_keys(y_keys, &ids);
    let b = match index_of_min(&yk) {
        Some(i) => i,
        None => 0,
    };
    let bottom = ids[b];
    let ghost rest1 = ids@;
    let _ = ids.swap_remove(b);
    proof {
        assert(ids@ == swap_removed(rest1, b as int));
        lemma_swapped_bounds(rest1, b as int, n as nat);
    }
    let rest = sorted_by_keys(angle_keys, &ids);
    let mut order: Vec<usize> = Vec::new();
    order.push(top);
    order.push(bottom);
    let mut k: usize = 0;
    while k < rest.len()
        invariant
            k <= rest@.len(),
            order@ == seq![top, bottom] + rest@.take(k as int),
        decreases rest.len() - k,
    {
        order.push(rest[k]);
        k = k + 1;
        assert(order@ =~= seq![top, bottom] + rest@.take(k as int));
    }
    assert(rest@.take(rest@.len() as int) =~= rest@);
    assert(order@ == x_order(y_keys@, angle_keys@));
    proof {
        assert forall|p: int| 0 <= p < order@.len() implies #[trigger] order@[p] < positions@.len() by {
            if p >= 2 {
                assert(order@[p] == rest@[p - 2]);
            }
        }
    }
    pick(&positions, &order)
}

/// Picks, in each cluster, the member closest to the cluster's centroid:
/// `dist_keys[c][j]` is the key of the distance of member `j` of cluster
/// `c` from the centroid, and of several closest members the first is
/// taken. A cluster without members is an error.
pub fn find_closest_to_centroid<A: Copy>(candidates: &Vec<Vec<A>>, dist_keys: &Vec<Vec<i64>>) -> (r: Result<Vec<A>, Error>)
    requires
        dist_keys@.len() == candidates@.len(),
        forall|c: int| 0 <= c < candidates@.len() ==> (#[trigger] dist_keys@[c])@.len() == candidates@[c]@.len(),
    ensures
        r is Err <==> exists|c: int| 0 <= c < candidates@.len() && (#[trigger] candidates@[c])@.len() == 0,
        r matches Err(e) ==> e@ == ErrorView::Generic("failed to find descriptor closest to calculated centroid"@),
        r matches Ok(v) ==> {
            &&& v@.len() == candidates@.len()
            &&& forall|c: int| 0 <= c < v@.len() ==> #[trigger] v@[c] == candidates@[c]@[first_min_index(dist_keys@[c]@)]
        },
{
    let mut out: Vec<A> = Vec::new();
    let mut c: usize = 0;
    while c < candidates.len()
        invariant
            c <= candidates@.len(),
            dist_keys@.len() == candidates@.len(),
            forall|cc: int| 0 <= cc < candidates@.len() ==> (#[trigger] dist_keys@[cc])@.len() == candidates@[cc]@.len(),
            forall|cc: int| 0 <= cc < c ==> (#[trigger] candidates@[cc])@.len() > 0,
            out@.len() == c,
            forall|cc: int| 0 <= cc < c ==> #[trigger] out@[cc] == candidates@[cc]@[first_min_index(dist_keys@[cc]@)],
        decreases candidates.len() - c,
    {
        match index_of_min(&dist_keys[c]) {
            Some(j) => {
                out.push(candidates[c][j]);
            },
            None => {
                assert(candidates@[c as int]@.len() == 0);
                return Err(Error::Generic("failed to find descriptor closest to calculated centroid".to_string()));
            },
        }
        c = c + 1;
    }
    Ok(out)
}

} // verus!
