//! Sorting the atoms of a cubic simulation cell, already split by site, into
//! the fixed order of the reference cell. What the sorting reads of the
//! positions enters as flags and integer keys (see [`crate::order`]),
//! computed by the caller for each atom or each pair of atoms.

use vstd::prelude::*;

use crate::cell::{
    lemma_a_site_order_permutes, lemma_opposite_pairs_cover, a_site_order, atom_pairs, find_opposite, flagged, get_a_site_sequence, get_x_site_sequence,
    opposite_pairs, split_front_back, x_site_order, XSiteOrder,
};
use crate::order::{
    identity_ids, ids_upto, is_permutation, keys_at, last_max_index, lemma_last_max_index,
    lemma_swapped_bounds, picked, swap_removed,
};
use crate::types::{DWType, Error, ErrorView};

verus! {

proof fn lemma_flagged_len<A, B>(xs: Seq<A>, ys: Seq<B>, flags: Seq<bool>, want: bool)
    requires
        xs.len() == ys.len(),
    ensures
        flagged(xs, flags, want).len() == flagged(ys, flags, want).len(),
    decreases xs.len(),
{
    if xs.len() > 0 {
        lemma_flagged_len(xs.drop_last(), ys.drop_last(), flags, want);
    }
}

/// The A atoms in order: those in front (`in_front`), then those behind,
/// each plane ordered by [`a_site_order`] from the keys of the atoms'
/// `x` coordinates and angles; `None` where a plane has no atom.
pub open spec fn a_twin_order<A>(atoms: Seq<A>, in_front: Seq<bool>, x_keys: Seq<i64>, angle_keys: Seq<i64>) -> Option<Seq<A>> {
    let front = flagged(atoms, in_front, true);
    let back = flagged(atoms, in_front, false);
    if front.len() == 0 || back.len() == 0 {
        None
    } else {
        Some(
            picked(front, a_site_order(flagged(x_keys, in_front, true), flagged(angle_keys, in_front, true)))
                + picked(back, a_site_order(flagged(x_keys, in_front, false), flagged(angle_keys, in_front, false))),
        )
    }
}

/// The indices below `n` whose flag is `want` are ascending, and are exactly
/// those indices.
proof fn lemma_flagged_ids(n: nat, flags: Seq<bool>, want: bool)
    requires
        n <= usize::MAX,
    ensures
        forall|a: int| 0 <= a < flagged(ids_upto(n), flags, want).len() ==> (#[trigger] flagged(ids_upto(n), flags, want)[a]) < n,
        forall|i: usize| #[trigger] flagged(ids_upto(n), flags, want).contains(i) <==> (i < n && flags[i as int] == want),
    decreases n,
{
    if n > 0 {
        let m = (n - 1) as nat;
        lemma_flagged_ids(m, flags, want);
        assert(ids_upto(n).drop_last() =~= ids_upto(m));
        assert(ids_upto(n).last() == m as usize);
        let rest = flagged(ids_upto(m), flags, want);
        let all = flagged(ids_upto(n), flags, want);
        assert forall|a: int| 0 <= a < all.len() implies (#[trigger] all[a]) < n by {
            if a < rest.len() {
                assert(all[a] == rest[a]);
            }
        }
        assert forall|i: usize| #[trigger] all.contains(i) <==> (i < n && flags[i as int] == want) by {
            if all.contains(i) {
                let a = choose|a: int| 0 <= a < all.len() && all[a] == i;
                if a < rest.len() {
                    assert(all[a] == rest[a]);
                    assert(rest.contains(i));
                }
            }
            if i < n && flags[i as int] == want {
                if i < m {
                    assert(rest.contains(i));
                    let a = choose|a: int| 0 <= a < rest.len() && rest[a] == i;
                    assert(all[a] == i);
                } else {
                    assert(all[all.len() - 1] == i);
                }
            }
        }
    }
}

/// The items whose flag is `want` are the items at the indices whose flag
/// is `want`.
proof fn lemma_flagged_picked<A>(items: Seq<A>, flags: Seq<bool>, want: bool)
    requires
        items.len() <= usize::MAX,
    ensures
        flagged(items, flags, want) == picked(items, flagged(ids_upto(items.len()), flags, want)),
    decreases items.len(),
{
    if items.len() > 0 {
        let n = items.len();
        let m = (n - 1) as nat;
        lemma_flagged_picked(items.drop_last(), flags, want);
        lemma_flagged_ids(m, flags, want);
        assert(ids_upto(n).drop_last() =~= ids_upto(m));
        assert(ids_upto(n).last() == m as usize);
        let ix = flagged(ids_upto(m), flags, want);
        assert(picked(items.drop_last(), ix) =~= picked(items, ix)) by {
            assert forall|p: int| 0 <= p < ix.len() implies #[trigger] picked(items.drop_last(), ix)[p] == picked(items, ix)[p] by {
                assert(ix[p] < m);
            }
        }
        if flags[m as int] == want {
            assert(picked(items, ix.push(m as usize)) =~= picked(items, ix).push(items.last()));
        }
    }
}

/// Every index below `n` has one flag or the other.
proof fn lemma_flagged_split(n: nat, flags: Seq<bool>)
    ensures
        flagged(ids_upto(n), flags, true).len() + flagged(ids_upto(n), flags, false).len() == n,
    decreases n,
{
    if n > 0 {
        let m = (n - 1) as nat;
        lemma_flagged_split(m, flags);
        assert(ids_upto(n).drop_last() =~= ids_upto(m));
    }
}

/// Sorting the A atoms rearranges them: the result is the atoms taken in
/// some order, each exactly once.
pub proof fn lemma_a_twin_rearranges<A>(atoms: Seq<A>, in_front: Seq<bool>, x_keys: Seq<i64>, angle_keys: Seq<i64>)
    requires
        atoms.len() <= usize::MAX,
        in_front.len() == atoms.len(),
        x_keys.len() == atoms.len(),
        angle_keys.len() == atoms.len(),
    ensures
        a_twin_order(atoms, in_front, x_keys, angle_keys) matches Some(v) ==> exists|perm: Seq<usize>|
            is_permutation(perm, atoms.len()) && #[trigger] picked(atoms, perm) == v,
{
    let n = atoms.len();
    let front = flagged(atoms, in_front, true);
    let back = flagged(atoms, in_front, false);
    if front.len() > 0 && back.len() > 0 {
        let it = flagged(ids_upto(n), in_front, true);
        let jf = flagged(ids_upto(n), in_front, false);
        lemma_flagged_ids(n, in_front, true);
        lemma_flagged_ids(n, in_front, false);
        lemma_flagged_picked(atoms, in_front, true);
        lemma_flagged_picked(atoms, in_front, false);
        lemma_flagged_split(n, in_front);
        lemma_flagged_len(atoms, x_keys, in_front, true);
        lemma_flagged_len(atoms, x_keys, in_front, false);
        lemma_flagged_len(atoms, angle_keys, in_front, true);
        lemma_flagged_len(atoms, angle_keys, in_front, false);
        let xt = flagged(x_keys, in_front, true);
        let xf = flagged(x_keys, in_front, false);
        let at = flagged(angle_keys, in_front, true);
        let af = flagged(angle_keys, in_front, false);
        lemma_a_site_order_permutes(xt, at);
        lemma_a_site_order_permutes(xf, af);
        let p1 = a_site_order(xt, at);
        let p2 = a_site_order(xf, af);
        let perm = picked(it, p1) + picked(jf, p2);
        assert(picked(atoms, perm) =~= picked(front, p1) + picked(back, p2)) by {
            assert forall|k: int| 0 <= k < perm.len() implies #[trigger] picked(atoms, perm)[k] == (picked(front, p1) + picked(back, p2))[k] by {
                if k < p1.len() {
                    assert(perm[k] == it[p1[k] as int]);
                } else {
                    assert(perm[k] == jf[p2[k - p1.len()] as int]);
                }
            }
        }
        assert forall|a: int| 0 <= a < perm.len() implies #[trigger] perm[a] < n by {
            if a < p1.len() {
                assert(perm[a] == it[p1[a] as int]);
            } else {
                assert(perm[a] == jf[p2[a - p1.len()] as int]);
            }
        }
        assert forall|i: usize| i < n implies #[trigger] perm.contains(i) by {
            if in_front[i as int] {
                assert(it.contains(i));
                let q = choose|q: int| 0 <= q < it.len() && it[q] == i;
                assert(p1.contains(q as usize));
                let k = choose|k: int| 0 <= k < p1.len() && p1[k] == q as usize;
                assert(perm[k] == i);
            } else {
                assert(jf.contains(i));
                let q = choose|q: int| 0 <= q < jf.len() && jf[q] == i;
                assert(p2.contains(q as usize));
                let k = choose|k: int| 0 <= k < p2.len() && p2[k] == q as usize;
                assert(perm[p1.len() + k] == i);
            }
        }
        assert(is_permutation(perm, n));
    }
}

/// Orders the A atoms of a cell with a twin wall: splits them into the
/// plane in front of the centre and the one behind (`in_front`) and orders
/// each (see [`a_twin_order`]). `x_keys` and `angle_keys` are the keys of
/// each atom's `x` coordinate and of its angle in the `x`-`z` plane.
pub fn sort_a_site_atoms_twin<A: Copy>(
    atoms: Vec<A>,
    in_front: &Vec<bool>,
    x_keys: &Vec<i64>,
    angle_keys: &Vec<i64>,
) -> (r: Result<Vec<A>, Error>)
    requires
        in_front@.len() == atoms@.len(),
        x_keys@.len() == atoms@.len(),
        angle_keys@.len() == atoms@.len(),
    ensures
        match a_twin_order(atoms@, in_front@, x_keys@, angle_keys@) {
            Some(v) => (r matches Ok(x) && x@ == v),
            None => (r matches Err(e) && e@ == ErrorView::Generic("atoms empty"@)),
        },
{
    let (front, back) = split_front_back(atoms, in_front);
    let (front_x, back_x) = split_front_back(x_keys.clone(), in_front);
    let (front_angle, back_angle) = split_front_back(angle_keys.clone(), in_front);
    proof {
        lemma_flagged_len(atoms@, x_keys@, in_front@, true);
        lemma_flagged_len(atoms@, x_keys@, in_front@, false);
        lemma_flagged_len(atoms@, angle_keys@, in_front@, true);
        lemma_flagged_len(atoms@, angle_keys@, in_front@, false);
    }
    let sorted_front = get_a_site_sequence(front, &front_x, &front_angle)?;
    let sorted_back = get_a_site_sequence(back, &back_x, &back_angle)?;
    let mut sorted = sorted_front;
    let ghost first = sorted@;
    let mut k: usize = 0;
    while k < sorted_back.len()
        invariant
            k <= sorted_back@.len(),
            sorted@ == first + sorted_back@.take(k as int),
        decreases sorted_back.len() - k,
    {
        sorted.push(sorted_back[k]);
        k = k + 1;
        assert(sorted@ =~= first + sorted_back@.take(k as int));
    }
    assert(sorted_back@.take(sorted_back@.len() as int) =~= sorted_back@);
    Ok(sorted)
}

proof fn lemma_x_site_order_bounds(y_keys: Seq<i64>, diag_keys: Seq<i64>)
    requires
        y_keys.len() == diag_keys.len(),
    ensures
        x_site_order(y_keys, diag_keys) matches XSiteOrder::Order(y, x, z) ==> y < y_keys.len() && x < y_keys.len() && z < y_keys.len(),
{
    let n = y_keys.len();
    if n > 0 {
        lemma_last_max_index(y_keys);
        let y = last_max_index(y_keys);
        let ids1 = swap_removed(ids_upto(n), y);
        lemma_swapped_bounds(ids_upto(n), y, n);
        if ids1.len() > 0 {
            let k1 = keys_at(diag_keys, ids1);
            lemma_last_max_index(k1);
            let xi = last_max_index(k1);
            lemma_swapped_bounds(ids1, xi, n);
        }
    }
}

/// The key that `matrix` gives each pair.
pub open spec fn pair_keys(matrix: Seq<Seq<i64>>, pairs: Seq<(usize, usize)>) -> Seq<i64> {
    Seq::new(pairs.len(), |k: int| matrix[pairs[k].0 as int][pairs[k].1 as int])
}

/// What ordering the X atoms gives: the atoms in order, an error, or a
/// panic of the ordering.
pub enum XTwin<A> {
    Sorted(Seq<A>),
    Fail,
    Panic,
}

/// The X atoms in order: the atoms are paired across the centre by the
/// keys `cos_keys` (see [`opposite_pairs`]), and the pairs ordered by
/// [`x_site_order`] from the keys of their directions' projections,
/// `y_keys[i][j]` on `y` and `diag_keys[i][j]` on the diagonal `(1, 0, -1)`
/// for the pair of atoms `i` and `j`.
pub open spec fn x_twin_order<A>(atoms: Seq<A>, cos_keys: Seq<Seq<i64>>, y_keys: Seq<Seq<i64>>, diag_keys: Seq<Seq<i64>>) -> XTwin<A> {
    match opposite_pairs(ids_upto(atoms.len()), cos_keys) {
        None => XTwin::Fail,
        Some(ps) => match x_site_order(pair_keys(y_keys, ps), pair_keys(diag_keys, ps)) {
            XSiteOrder::Order(y, x, z) => XTwin::Sorted(seq![
                atoms[ps[y as int].0 as int],
                atoms[ps[x as int].0 as int],
                atoms[ps[z as int].0 as int],
                atoms[ps[y as int].1 as int],
                atoms[ps[x as int].1 as int],
                atoms[ps[z as int].1 as int],
            ]),
            XSiteOrder::Missing => XTwin::Fail,
            XSiteOrder::Panic => XTwin::Panic,
        },
    }
}

proof fn lemma_x_site_order_three(y_keys: Seq<i64>, diag_keys: Seq<i64>)
    requires
        y_keys.len() == 3,
        diag_keys.len() == 3,
    ensures
        x_site_order(y_keys, diag_keys) matches XSiteOrder::Order(y, x, z) ==> y < 3 && x < 3 && z < 3 && y != x
            && y != z && x != z,
{
    assert(ids_upto(3) =~= seq![0usize, 1, 2]);
    lemma_last_max_index(y_keys);
    let t = last_max_index(y_keys);
    let ids1 = swap_removed(ids_upto(3), t);
    if t == 0 {
        assert(ids1 =~= seq![2usize, 1]);
    } else if t == 1 {
        assert(ids1 =~= seq![0usize, 2]);
    } else {
        assert(ids1 =~= seq![0usize, 1]);
    }
    lemma_last_max_index(keys_at(diag_keys, ids1));
    let xi = last_max_index(keys_at(diag_keys, ids1));
    let ids2 = swap_removed(ids1, xi);
    if xi == 0 {
        assert(ids2 =~= seq![ids1[1]]);
    } else {
        assert(ids2 =~= seq![ids1[0]]);
    }
}

/// Atom `i` is in one of the pairs.
spec fn in_a_pair(ps: Seq<(usize, usize)>, i: usize) -> bool {
    exists|j: int| 0 <= j < ps.len() && (#[trigger] ps[j].0 == i || ps[j].1 == i)
}

/// Six atoms pair up into three pairs of atoms below six, each atom in one.
proof fn lemma_six_pair_up(cos_keys: Seq<Seq<i64>>)
    ensures
        opposite_pairs(ids_upto(6), cos_keys) matches Some(ps) ==> {
            &&& ps.len() == 3
            &&& forall|j: int| 0 <= j < 3 ==> (#[trigger] ps[j]).0 < 6 && ps[j].1 < 6
            &&& forall|i: usize| i < 6 ==> #[trigger] in_a_pair(ps, i)
        },
{
    let ids = ids_upto(6);
    lemma_opposite_pairs_cover(ids, cos_keys);
    match opposite_pairs(ids, cos_keys) {
        Some(ps) => {
            assert forall|j: int| 0 <= j < 3 implies (#[trigger] ps[j]).0 < 6 && ps[j].1 < 6 by {
                assert(ids.contains(ps[j].0) && ids.contains(ps[j].1));
                let a = choose|a: int| 0 <= a < ids.len() && ids[a] == ps[j].0;
                let b = choose|b: int| 0 <= b < ids.len() && ids[b] == ps[j].1;
            }
            assert forall|i: usize| i < 6 implies #[trigger] in_a_pair(ps, i) by {
                assert(ids[i as int] == i);
                assert(ids.contains(i));
            }
        },
        None => {},
    }
}

/// Sorting the six X atoms of a cubic cell rearranges them: the result is
/// the atoms taken in some order, each exactly once. (With more atoms, only
/// three of the pairs are kept.)
pub proof fn lemma_x_twin_rearranges<A>(atoms: Seq<A>, cos_keys: Seq<Seq<i64>>, y_keys: Seq<Seq<i64>>, diag_keys: Seq<Seq<i64>>)
    requires
        atoms.len() == 6,
    ensures
        x_twin_order(atoms, cos_keys, y_keys, diag_keys) matches XTwin::Sorted(v) ==> exists|perm: Seq<usize>|
            is_permutation(perm, 6) && #[trigger] picked(atoms, perm) == v,
{
    lemma_six_pair_up(cos_keys);
    match opposite_pairs(ids_upto(6), cos_keys) {
        Some(ps) => {
            let yk = pair_keys(y_keys, ps);
            let dk = pair_keys(diag_keys, ps);
            lemma_x_site_order_three(yk, dk);
            match x_site_order(yk, dk) {
                XSiteOrder::Order(y, x, z) => {
                    let perm = seq![ps[y as int].0, ps[x as int].0, ps[z as int].0, ps[y as int].1, ps[x as int].1, ps[z as int].1];
                    assert forall|a: int| 0 <= a < perm.len() implies #[trigger] perm[a] < 6 by {
                        assert(ps[y as int].0 < 6 && ps[x as int].0 < 6 && ps[z as int].0 < 6);
                    }
                    assert forall|i: usize| i < 6 implies #[trigger] perm.contains(i) by {
                        assert(in_a_pair(ps, i));
                        let j = choose|j: int| 0 <= j < ps.len() && (#[trigger] ps[j].0 == i || ps[j].1 == i);
                        if j == y as int {
                            if ps[j].0 == i { assert(perm[0] == i); } else { assert(perm[3] == i); }
                        } else if j == x as int {
                            if ps[j].0 == i { assert(perm[1] == i); } else { assert(perm[4] == i); }
                        } else {
                            if ps[j].0 == i { assert(perm[2] == i); } else { assert(perm[5] == i); }
                        }
                    }
                    assert(picked(atoms, perm) =~= seq![
                        atoms[ps[y as int].0 as int],
                        atoms[ps[x as int].0 as int],
                        atoms[ps[z as int].0 as int],
                        atoms[ps[y as int].1 as int],
                        atoms[ps[x as int].1 as int],
                        atoms[ps[z as int].1 as int],
                    ]);
                    assert(is_permutation(perm, 6));
                },
                _ => {},
            }
        },
        None => {},
    }
}

/// The matrix of keys of a square table.
pub open spec fn key_matrix(m: Seq<Vec<i64>>) -> Seq<Seq<i64>> {
    m.map_values(|row: Vec<i64>| row@)
}

/// `m` is an `n` by `n` table.
pub open spec fn is_square(m: Seq<Vec<i64>>, n: nat) -> bool {
    &&& m.len() == n
    &&& forall|i: int| 0 <= i < n ==> (#[trigger] m[i])@.len() == n
}

/// Orders the X atoms of a cell with a twin wall (see [`x_twin_order`]).
pub fn sort_x_site_atoms_twin<A: Copy>(
    atoms: Vec<A>,
    cos_keys: &Vec<Vec<i64>>,
    y_keys: &Vec<Vec<i64>>,
    diag_keys: &Vec<Vec<i64>>,
) -> (r: Result<Vec<A>, Error>)
    requires
        is_square(cos_keys@, atoms@.len()),
        is_square(y_keys@, atoms@.len()),
        is_square(diag_keys@, atoms@.len()),
        !(x_twin_order(atoms@, key_matrix(cos_keys@), key_matrix(y_keys@), key_matrix(diag_keys@)) is Panic),
    ensures
        match x_twin_order(atoms@, key_matrix(cos_keys@), key_matrix(y_keys@), key_matrix(diag_keys@)) {
            XTwin::Sorted(v) => (r matches Ok(x) && x@ == v),
            XTwin::Fail => (r matches Err(e) && e@ == ErrorView::Generic("Couldn't find maximum"@)),
            XTwin::Panic => false,
        },
{
    let n = atoms.len();
    let ids = identity_ids(n);
    assert(key_matrix(cos_keys@) =~= cos_keys@.map_values(|k: Vec<i64>| k@));
    let id_pairs = match find_opposite(ids, cos_keys) {
        Ok(v) => v,
        Err(e) => {
            return Err(e);
        },
    };
    let ghost ps = opposite_pairs(ids_upto(n as nat), key_matrix(cos_keys@))->0;
    proof {
        assert forall|j: int| 0 <= j < id_pairs@.len() implies #[trigger] id_pairs@[j] == ps[j] by {
            assert(id_pairs@[j] == (ids_upto(n as nat)[ps[j].0 as int], ids_upto(n as nat)[ps[j].1 as int]));
        }
    }
    let mut pairs: Vec<(A, A)> = Vec::new();
    let mut yk: Vec<i64> = Vec::new();
    let mut dk: Vec<i64> = Vec::new();
    let mut k: usize = 0;
    while k < id_pairs.len()
        invariant
            n == atoms@.len(),
            is_square(y_keys@, n as nat),
            is_square(diag_keys@, n as nat),
            id_pairs@.len() == ps.len(),
            forall|j: int| 0 <= j < ps.len() ==> (#[trigger] ps[j]).0 < n && ps[j].1 < n,
            forall|j: int| 0 <= j < id_pairs@.len() ==> #[trigger] id_pairs@[j] == ps[j],
            k <= id_pairs@.len(),
            pairs@ == atom_pairs(atoms@, ps).take(k as int),
            yk@ == pair_keys(key_matrix(y_keys@), ps).take(k as int),
            dk@ == pair_keys(key_matrix(diag_keys@), ps).take(k as int),
        decreases id_pairs.len() - k,
    {
        let (i, j) = id_pairs[k];
        assert((i, j) == ps[k as int]);
        assert(y_keys@[i as int]@.len() == n);
        assert(diag_keys@[i as int]@.len() == n);
        pairs.push((atoms[i], atoms[j]));
        yk.push(y_keys[i][j]);
        dk.push(diag_keys[i][j]);
        k = k + 1;
        assert(pairs@ =~= atom_pairs(atoms@, ps).take(k as int));
        assert(yk@ =~= pair_keys(key_matrix(y_keys@), ps).take(k as int));
        assert(dk@ =~= pair_keys(key_matrix(diag_keys@), ps).take(k as int));
    }
    assert(pairs@ =~= atom_pairs(atoms@, ps));
    assert(yk@ =~= pair_keys(key_matrix(y_keys@), ps));
    assert(dk@ =~= pair_keys(key_matrix(diag_keys@), ps));
    let r = get_x_site_sequence(pairs, &yk, &dk);
    proof {
        lemma_x_site_order_bounds(yk@, dk@);
        match x_site_order(yk@, dk@) {
            XSiteOrder::Order(y, x, z) => {
                assert(pairs@[y as int] == (atoms@[ps[y as int].0 as int], atoms@[ps[y as int].1 as int]));
                assert(pairs@[x as int] == (atoms@[ps[x as int].0 as int], atoms@[ps[x as int].1 as int]));
                assert(pairs@[z as int] == (atoms@[ps[z as int].0 as int], atoms@[ps[z as int].1 as int]));
            },
            _ => {},
        }
    }
    r
}

/// What the sorting of the three sites reads of the atoms: for the A atoms,
/// whether each lies in front of the centre and the keys of its `x`
/// coordinate and its angle; for the X atoms, the key tables of
/// [`x_twin_order`].
pub struct SiteKeys {
    pub a_in_front: Vec<bool>,
    pub a_x: Vec<i64>,
    pub a_angle: Vec<i64>,
    pub x_cos: Vec<Vec<i64>>,
    pub x_y: Vec<Vec<i64>>,
    pub x_diag: Vec<Vec<i64>>,
}

/// The keys fit `a` A atoms and `x` X atoms.
pub open spec fn keys_fit(keys: SiteKeys, a: nat, x: nat) -> bool {
    &&& keys.a_in_front@.len() == a
    &&& keys.a_x@.len() == a
    &&& keys.a_angle@.len() == a
    &&& is_square(keys.x_cos@, x)
    &&& is_square(keys.x_y@, x)
    &&& is_square(keys.x_diag@, x)
}

/// Sorts the A and X sites of a cell with a twin wall (head-to-tail or
/// head-to-head) into the order of the reference cell; the B site is kept.
/// Antiphase boundaries have no ordering.
pub fn sort_atoms<A: Copy>(
    atoms_split: (Vec<A>, Vec<A>, Vec<A>),
    dw_type: DWType,
    keys: &SiteKeys,
) -> (r: Result<(Vec<A>, Vec<A>, Vec<A>), Error>)
    requires
        dw_type != DWType::APB,
        keys_fit(*keys, atoms_split.0@.len(), atoms_split.2@.len()),
        a_twin_order(atoms_split.0@, keys.a_in_front@, keys.a_x@, keys.a_angle@) is Some ==> !(x_twin_order(
            atoms_split.2@,
            key_matrix(keys.x_cos@),
            key_matrix(keys.x_y@),
            key_matrix(keys.x_diag@),
        ) is Panic),
    ensures
        match a_twin_order(atoms_split.0@, keys.a_in_front@, keys.a_x@, keys.a_angle@) {
            None => (r matches Err(e) && e@ == ErrorView::Generic("atoms empty"@)),
            Some(a) => match x_twin_order(atoms_split.2@, key_matrix(keys.x_cos@), key_matrix(keys.x_y@), key_matrix(keys.x_diag@)) {
                XTwin::Sorted(x) => (r matches Ok(t) && t.0@ == a && t.1@ == atoms_split.1@ && t.2@ == x),
                XTwin::Fail => (r matches Err(e) && e@ == ErrorView::Generic("Couldn't find maximum"@)),
                XTwin::Panic => false,
            },
        },
{
    let (a_site, b_site, x_site) = atoms_split;
    let a_sorted = sort_a_site_atoms_twin(a_site, &keys.a_in_front, &keys.a_x, &keys.a_angle)?;
    let x_sorted = sort_x_site_atoms_twin(x_site, &keys.x_cos, &keys.x_y, &keys.x_diag)?;
    Ok((a_sorted, b_site, x_sorted))
}

} // verus!
