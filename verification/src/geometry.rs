//! Neighbourhoods and displacements of atoms. Distances and differences of
//! positions are the caller's: distances enter as integer keys (see
//! [`crate::order`]) and a difference of positions through `difference`.

use vstd::prelude::*;

use crate::order::{key_index_lt, lemma_stable_order_exists, stable_order, stable_sort_order};
use crate::types::{Atom, Error};

verus! {

/// The indices of the `n` nearest atoms, nearest first (stably), from the
/// keys of their distances. Among the atoms of the reference set itself
/// (`is_self`) the nearest, the reference atom, is skipped.
pub open spec fn nearest(dist_keys: Seq<i64>, n: nat, is_self: bool) -> Seq<usize> {
    let order = stable_order(dist_keys);
    if is_self {
        let m = if n < dist_keys.len() - 1 { n as int } else { dist_keys.len() - 1 };
        order.subrange(1, m + 1)
    } else {
        let m = if n < dist_keys.len() { n as int } else { dist_keys.len() as int };
        order.take(m)
    }
}

/// The neighbours chosen are the nearest: there are `n` of them, or all
/// there are (the reference atom aside); they come nearest first; and no
/// atom left out, the reference atom aside, is nearer than one chosen.
pub proof fn lemma_nearest_are_nearest(dist_keys: Seq<i64>, n: nat, is_self: bool)
    requires
        dist_keys.len() <= usize::MAX,
        is_self ==> dist_keys.len() > 0,
    ensures
        ({
            let sel = nearest(dist_keys, n, is_self);
            let avail = if is_self { dist_keys.len() - 1 } else { dist_keys.len() as int };
            &&& sel.len() == if n < avail { n as int } else { avail }
            &&& forall|a: int| 0 <= a < sel.len() ==> #[trigger] sel[a] < dist_keys.len()
            &&& forall|a: int, b: int| 0 <= a < b < sel.len() ==> dist_keys[#[trigger] sel[a] as int] <= dist_keys[#[trigger] sel[b] as int]
            &&& forall|a: int, j: int|
                0 <= a < sel.len() && 0 <= j < dist_keys.len() && !sel.contains(j as usize) && !(is_self && j == stable_order(dist_keys)[0])
                    ==> dist_keys[#[trigger] sel[a] as int] <= #[trigger] dist_keys[j]
        }),
{
    lemma_stable_order_exists(dist_keys);
    let order = stable_order(dist_keys);
    let sel = nearest(dist_keys, n, is_self);
    let start: int = if is_self { 1 } else { 0 };
    assert forall|a: int| 0 <= a < sel.len() implies #[trigger] sel[a] == order[a + start] by {}
    assert forall|a: int| 0 <= a < sel.len() implies #[trigger] sel[a] < dist_keys.len() by {
        assert(sel[a] == order[a + start]);
    }
    assert forall|a: int, b: int| 0 <= a < b < sel.len() implies dist_keys[#[trigger] sel[a] as int] <= dist_keys[#[trigger] sel[b] as int] by {
        assert(sel[a] == order[a + start] && sel[b] == order[b + start]);
    }
    assert forall|a: int, j: int|
        0 <= a < sel.len() && 0 <= j < dist_keys.len() && !sel.contains(j as usize) && !(is_self && j == order[0])
        implies dist_keys[#[trigger] sel[a] as int] <= #[trigger] dist_keys[j] by {
        assert(order.contains(j as usize));
        let q = choose|q: int| 0 <= q < order.len() && order[q] == j as usize;
        assert(sel[a] == order[a + start]);
        if start <= q < start + sel.len() {
            assert(sel[q - start] == j as usize);
        }
        assert(q >= start + sel.len());
        assert(key_index_lt(dist_keys[order[a + start] as int], order[a + start] as int, dist_keys[order[q] as int], order[q] as int));
    }
}

/// For each reference atom, the indices of its `n` nearest atoms, nearest
/// first: `dist_keys[i][j]` is the key of the distance from reference atom
/// `i` to atom `j` (see [`nearest`]). Where the atoms are the reference
/// atoms themselves (`is_self`), each reference atom is skipped among its
/// own neighbours, and there must be atoms.
pub fn n_nearest_neighbors(dist_keys: &Vec<Vec<i64>>, n: usize, is_self: bool) -> (r: Vec<Vec<usize>>)
    requires
        is_self ==> forall|i: int| 0 <= i < dist_keys@.len() ==> (#[trigger] dist_keys@[i])@.len() > 0,
    ensures
        r@.len() == dist_keys@.len(),
        forall|i: int| 0 <= i < r@.len() ==> (#[trigger] r@[i])@ == nearest(dist_keys@[i]@, n as nat, is_self),
{
    let mut out: Vec<Vec<usize>> = Vec::new();
    let mut i: usize = 0;
    while i < dist_keys.len()
        invariant
            i <= dist_keys@.len(),
            is_self ==> forall|k: int| 0 <= k < dist_keys@.len() ==> (#[trigger] dist_keys@[k])@.len() > 0,
            out@.len() == i,
            forall|k: int| 0 <= k < i ==> (#[trigger] out@[k])@ == nearest(dist_keys@[k]@, n as nat, is_self),
        decreases dist_keys.len() - i,
    {
        let keys = &dist_keys[i];
        let order = stable_sort_order(keys);
        let len = order.len();
        let mut picked: Vec<usize> = Vec::new();
        let (from, to) = if is_self {
            let m = if n < len - 1 { n } else { len - 1 };
            (1, m + 1)
        } else {
            let m = if n < len { n } else { len };
            (0, m)
        };
        let mut j: usize = from;
        while j < to
            invariant
                from <= j <= to <= order@.len(),
                picked@ == order@.subrange(from as int, j as int),
            decreases to - j,
        {
            picked.push(order[j]);
            j = j + 1;
            assert(picked@ =~= order@.subrange(from as int, j as int));
        }
        assert(picked@ =~= nearest(keys@, n as nat, is_self));
        out.push(picked);
        i = i + 1;
    }
    out
}

/// The displacement of each atom of `lhs` from the atom of `rhs` at the
/// same index, `difference(lhs position, rhs position)`; the two lists must be
/// equally long.
pub fn get_displacements_between<P: Copy, D, F: Fn(P, P) -> D>(lhs: &Vec<Atom<P>>, rhs: &Vec<Atom<P>>, difference: &F) -> (r: Result<Vec<D>, Error>)
    requires
        forall|a: P, b: P| difference.requires((a, b)),
    ensures
        lhs@.len() != rhs@.len() <==> r is Err,
        r matches Err(e) ==> e == (Error::SizeMismatch { expected: lhs@.len() as usize, got: rhs@.len() as usize }),
        r matches Ok(v) ==> {
            &&& v@.len() == lhs@.len()
            &&& forall|i: int| 0 <= i < v@.len() ==> difference.ensures((lhs@[i].position, rhs@[i].position), #[trigger] v@[i])
        },
{
    if lhs.len() != rhs.len() {
        return Err(Error::SizeMismatch { expected: lhs.len(), got: rhs.len() });
    }
    let mut out: Vec<D> = Vec::new();
    let mut i: usize = 0;
    while i < lhs.len()
        invariant
            i <= lhs@.len() == rhs@.len(),
            forall|a: P, b: P| difference.requires((a, b)),
            out@.len() == i,
            forall|k: int| 0 <= k < i ==> difference.ensures((lhs@[k].position, rhs@[k].position), #[trigger] out@[k]),
        decreases lhs.len() - i,
    {
        let d = difference(lhs[i].position, rhs[i].position);
        out.push(d);
        i = i + 1;
    }
    Ok(out)
}

} // verus!
