//! Averaging observables over the cells of a simulation: grouping cells
//! into bins along `x`, averaging inside bins, and block averages over a
//! sequence of profiles. What a cell's position or an observable holds is
//! the caller's: the grouping asks `within(start, id)` whether cell `id`
//! belongs to the bin that cell `start` opened, and averages are taken by
//! the caller's `average`.

use vstd::prelude::*;

use crate::order::{lemma_stable_order_exists, stable_order, stable_sort_order};
use crate::types::{Error, ErrorView};

verus! {

/// The cell that opened the bin that is open when `ids[k]` comes up, where
/// `ds[j]` tells whether `ids[j]` joined the open bin.
pub open spec fn bin_start(ids: Seq<usize>, ds: Seq<bool>, k: int) -> usize
    decreases k,
{
    if k <= 0 {
        ids[0]
    } else if !ds[k - 1] {
        ids[k - 1]
    } else {
        bin_start(ids, ds, k - 1)
    }
}

/// The closed bins and the open bin after the first `k` cells: a cell that
/// joins goes into the open bin; one that does not closes it and opens a
/// new one. The first bin starts open and empty.
pub open spec fn bins_after(ids: Seq<usize>, ds: Seq<bool>, k: int) -> (Seq<Seq<usize>>, Seq<usize>)
    decreases k,
{
    if k <= 0 {
        (seq![], seq![])
    } else {
        let (done, open) = bins_after(ids, ds, k - 1);
        if ds[k - 1] {
            (done, open.push(ids[k - 1]))
        } else {
            (done.push(open), seq![ids[k - 1]])
        }
    }
}

/// All bins, the open one closed at the end.
pub open spec fn binned(ids: Seq<usize>, ds: Seq<bool>) -> Seq<Seq<usize>> {
    let (done, open) = bins_after(ids, ds, ids.len() as int);
    done.push(open)
}

/// `ds` are answers that `within` can give for the cells of `ids` in turn.
pub open spec fn answers<F: Fn(usize, usize) -> bool>(within: F, ids: Seq<usize>, ds: Seq<bool>) -> bool {
    &&& ds.len() == ids.len()
    &&& forall|k: int| 0 <= k < ids.len() ==> #[trigger] within.ensures((bin_start(ids, ds, k), ids[k]), ds[k])
}

pub open spec fn bins_view(v: Seq<Vec<usize>>) -> Seq<Seq<usize>> {
    v.map_values(|b: Vec<usize>| b@)
}

/// Groups the cells `ids` (sorted along `x`) into bins: a bin is opened by a
/// cell and holds the following cells for which `within(opener, cell)` holds.
pub fn find_and_fill_bins<F: Fn(usize, usize) -> bool>(ids: Vec<usize>, within: &F) -> (r: Vec<Vec<usize>>)
    requires
        ids@.len() > 0,
        forall|a: usize, b: usize| within.requires((a, b)),
    ensures
        exists|ds: Seq<bool>| answers(*within, ids@, ds) && bins_view(r@) == binned(ids@, ds),
{
    let mut bins: Vec<Vec<usize>> = Vec::new();
    let mut current_start = ids[0];
    let mut current: Vec<usize> = Vec::new();
    let ghost mut ds: Seq<bool> = seq![];
    let mut k: usize = 0;
    while k < ids.len()
        invariant
            k <= ids@.len(),
            ids@.len() > 0,
            forall|a: usize, b: usize| within.requires((a, b)),
            ds.len() == k,
            forall|j: int| 0 <= j < k ==> #[trigger] within.ensures((bin_start(ids@, ds, j), ids@[j]), ds[j]),
            current_start == bin_start(ids@, ds, k as int),
            bins_after(ids@, ds, k as int) == (bins_view(bins@), current@),
        decreases ids.len() - k,
    {
        let id = ids[k];
        let joins = within(current_start, id);
        proof {
            let old_ds = ds;
            ds = ds.push(joins);
            assert forall|j: int| 0 <= j <= k implies bin_start(ids@, ds, j) == bin_start(ids@, old_ds, j) by {
                lemma_bin_start_prefix(ids@, old_ds, ds, j);
            }
            assert forall|j: int| 0 < j <= k implies bins_after(ids@, ds, j) == bins_after(ids@, old_ds, j) by {
                lemma_bins_after_prefix(ids@, old_ds, ds, j);
            }
            lemma_bins_after_prefix(ids@, old_ds, ds, k as int);
            assert(ds[k as int] == joins);
        }
        let ghost before = bins_after(ids@, ds, k as int);
        if joins {
            current.push(id);
            assert(bins_after(ids@, ds, k + 1) == (before.0, before.1.push(id)));
        } else {
            let finished = current;
            let ghost old_bins = bins_view(bins@);
            bins.push(finished);
            assert(bins_view(bins@) =~= old_bins.push(finished@));
            current = Vec::new();
            current.push(id);
            current_start = id;
            assert(current@ =~= seq![id]);
        }
        k = k + 1;
    }
    let ghost old_bins = bins_view(bins@);
    bins.push(current);
    assert(bins_view(bins@) =~= old_bins.push(current@));
    assert(answers(*within, ids@, ds));
    assert(bins_view(bins@) == binned(ids@, ds));
    bins
}

proof fn lemma_bin_start_prefix(ids: Seq<usize>, ds1: Seq<bool>, ds2: Seq<bool>, j: int)
    requires
        0 <= j <= ds1.len() <= ds2.len(),
        forall|i: int| 0 <= i < ds1.len() ==> ds1[i] == ds2[i],
    ensures
        bin_start(ids, ds1, j) == bin_start(ids, ds2, j),
    decreases j,
{
    if j > 0 {
        lemma_bin_start_prefix(ids, ds1, ds2, j - 1);
    }
}

proof fn lemma_bins_after_prefix(ids: Seq<usize>, ds1: Seq<bool>, ds2: Seq<bool>, j: int)
    requires
        0 <= j <= ds1.len() <= ds2.len(),
        forall|i: int| 0 <= i < ds1.len() ==> ds1[i] == ds2[i],
    ensures
        bins_after(ids, ds1, j) == bins_after(ids, ds2, j),
    decreases j,
{
    if j > 0 {
        lemma_bins_after_prefix(ids, ds1, ds2, j - 1);
    }
}

proof fn lemma_bins_after_cover(ids: Seq<usize>, ds: Seq<bool>, k: int)
    requires
        0 <= k <= ids.len(),
        ds.len() == ids.len(),
    ensures
        bins_after(ids, ds, k).0.flatten() + bins_after(ids, ds, k).1 == ids.take(k),
        k > 0 ==> bins_after(ids, ds, k).1.len() > 0,
        forall|b: int| 1 <= b < bins_after(ids, ds, k).0.len() ==> (#[trigger] bins_after(ids, ds, k).0[b]).len() > 0,
    decreases k,
{
    broadcast use Seq::lemma_flatten_push;

    if k > 0 {
        lemma_bins_after_cover(ids, ds, k - 1);
        let (done, open) = bins_after(ids, ds, k - 1);
        assert(ids.take(k) == ids.take(k - 1).push(ids[k - 1]));
        if ds[k - 1] {
            assert(done.flatten() + open.push(ids[k - 1]) =~= (done.flatten() + open).push(ids[k - 1]));
        } else {
            assert(done.push(open).flatten() =~= done.flatten() + open);
            assert(done.push(open).flatten() + seq![ids[k - 1]] =~= (done.flatten() + open).push(ids[k - 1]));
            assert forall|b: int| 1 <= b < done.push(open).len() implies (#[trigger] done.push(open)[b]).len() > 0 by {
                if b < done.len() {
                    assert(done.push(open)[b] == done[b]);
                } else {
                    assert(done.push(open)[b] == open);
                    assert(k - 1 > 0);
                }
            }
        }
    }
}

/// Binning keeps every cell in its place: the bins, one after another, are
/// the cells in order; and every bin but the first holds at least the cell
/// that opened it.
pub proof fn lemma_binned_cover(ids: Seq<usize>, ds: Seq<bool>)
    requires
        ds.len() == ids.len(),
    ensures
        binned(ids, ds).flatten() == ids,
        forall|b: int| 1 <= b < binned(ids, ds).len() ==> (#[trigger] binned(ids, ds)[b]).len() > 0,
{
    broadcast use Seq::lemma_flatten_push;

    let n = ids.len() as int;
    lemma_bins_after_cover(ids, ds, n);
    let (done, open) = bins_after(ids, ds, n);
    assert(ids.take(n) =~= ids);
    assert(done.push(open).flatten() =~= done.flatten() + open);
    assert forall|b: int| 1 <= b < done.push(open).len() implies (#[trigger] done.push(open)[b]).len() > 0 by {
        if b < done.len() {
            assert(done.push(open)[b] == done[b]);
        } else {
            assert(done.push(open)[b] == open);
        }
    }
}

/// The cell that opened bin `b`: the first of the cells for the first bin,
/// and the bin's own first cell for every later one.
pub open spec fn opener(ids: Seq<usize>, bins: Seq<Seq<usize>>, b: int) -> usize {
    if b == 0 {
        ids[0]
    } else {
        bins[b][0]
    }
}

/// The bins are anchored at their openers: every cell of a bin, but the
/// opener of a later bin, passed `within` against the bin's opener, and the
/// opener of every later bin failed it against the opener of the bin
/// before.
pub open spec fn anchored<F: Fn(usize, usize) -> bool>(within: F, ids: Seq<usize>, bins: Seq<Seq<usize>>) -> bool {
    &&& forall|b: int, j: int|
        0 <= b < bins.len() && 0 <= j < bins[b].len() && !(b > 0 && j == 0) ==> within.ensures(
            (opener(ids, bins, b), #[trigger] bins[b][j]),
            true,
        )
    &&& forall|b: int|
        1 <= b < bins.len() ==> within.ensures((opener(ids, bins, b - 1), #[trigger] bins[b][0]), false)
}

proof fn lemma_bins_after_anchored<F: Fn(usize, usize) -> bool>(within: F, ids: Seq<usize>, ds: Seq<bool>, k: int)
    requires
        0 <= k <= ids.len(),
        ids.len() > 0,
        answers(within, ids, ds),
    ensures
        ({
            let (done, open) = bins_after(ids, ds, k);
            &&& bin_start(ids, ds, k) == opener(ids, done.push(open), done.len() as int)
            &&& anchored(within, ids, done.push(open))
        }),
    decreases k,
{
    if k > 0 {
        lemma_bins_after_anchored(within, ids, ds, k - 1);
        lemma_bins_after_cover(ids, ds, k - 1);
        let (done, open) = bins_after(ids, ds, k - 1);
        let full = done.push(open);
        let x = ids[k - 1];
        assert(within.ensures((bin_start(ids, ds, k - 1), x), ds[k - 1]));
        assert(done.len() > 0 ==> k - 1 > 0);
        if ds[k - 1] {
            let open2 = open.push(x);
            let full2 = done.push(open2);
            assert(bin_start(ids, ds, k) == bin_start(ids, ds, k - 1));
            if done.len() > 0 {
                assert(full2[done.len() as int][0] == open[0]);
            }
            assert forall|b: int, j: int|
                0 <= b < full2.len() && 0 <= j < full2[b].len() && !(b > 0 && j == 0) implies within.ensures(
                (opener(ids, full2, b), #[trigger] full2[b][j]),
                true,
            ) by {
                if b < done.len() {
                    assert(full2[b] == full[b]);
                    assert(opener(ids, full2, b) == opener(ids, full, b));
                } else if j < open.len() {
                    assert(full2[b][j] == full[b][j]);
                    assert(opener(ids, full2, b) == opener(ids, full, b));
                } else {
                    assert(full2[b][j] == x);
                }
            }
            assert forall|b: int| 1 <= b < full2.len() implies within.ensures(
                (opener(ids, full2, b - 1), #[trigger] full2[b][0]),
                false,
            ) by {
                assert(full2[b][0] == full[b][0]);
                assert(opener(ids, full2, b - 1) == opener(ids, full, b - 1));
            }
        } else {
            let full2 = done.push(open).push(seq![x]);
            assert(bins_after(ids, ds, k) == (done.push(open), seq![x]));
            assert(full2[full.len() as int][0] == x);
            assert forall|b: int, j: int|
                0 <= b < full2.len() && 0 <= j < full2[b].len() && !(b > 0 && j == 0) implies within.ensures(
                (opener(ids, full2, b), #[trigger] full2[b][j]),
                true,
            ) by {
                if b < full.len() {
                    assert(full2[b] == full[b]);
                    assert(opener(ids, full2, b) == opener(ids, full, b));
                }
            }
            assert forall|b: int| 1 <= b < full2.len() implies within.ensures(
                (opener(ids, full2, b - 1), #[trigger] full2[b][0]),
                false,
            ) by {
                if b < full.len() {
                    assert(full2[b] == full[b]);
                    assert(opener(ids, full2, b - 1) == opener(ids, full, b - 1));
                } else {
                    assert(opener(ids, full2, b - 1) == opener(ids, full, done.len() as int));
                }
            }
        }
    }
}

/// A bin opens exactly where the test fails: every cell of a bin passed
/// `within` against the cell that opened the bin, and every later bin opens
/// with a cell that failed it against the opener of the bin before. Bins
/// are anchored at their first cell, not chained from cell to cell.
pub proof fn lemma_binned_anchored<F: Fn(usize, usize) -> bool>(within: F, ids: Seq<usize>, ds: Seq<bool>)
    requires
        ids.len() > 0,
        answers(within, ids, ds),
    ensures
        anchored(within, ids, binned(ids, ds)),
{
    lemma_bins_after_anchored(within, ids, ds, ids.len() as int);
}

/// Sorts the cells by the keys of their `x` positions (stably) and groups
/// them into bins; see [`find_and_fill_bins`].
pub fn bins_along_x<F: Fn(usize, usize) -> bool>(x_keys: &Vec<i64>, within: &F) -> (r: Vec<Vec<usize>>)
    requires
        x_keys@.len() > 0,
        forall|a: usize, b: usize| within.requires((a, b)),
    ensures
        exists|ds: Seq<bool>| answers(*within, stable_order(x_keys@), ds) && bins_view(r@) == binned(stable_order(x_keys@), ds),
{
    let ids = stable_sort_order(x_keys);
    find_and_fill_bins(ids, within)
}


/// The observables of the cells `bin` names.
pub open spec fn members<'a, C, Obs>(cell_observables: Seq<&'a (C, Obs)>, bin: Seq<usize>) -> Seq<&'a Obs> {
    Seq::new(bin.len(), |j: int| &cell_observables[bin[j] as int].1)
}

/// `out` is a value that `average` can give for the observables `xs`.
pub open spec fn averages<'a, Obs, G: Fn(&Vec<&'a Obs>) -> Obs>(average: G, xs: Seq<&'a Obs>, out: Obs) -> bool {
    exists|v: Vec<&'a Obs>| v@ == xs && #[trigger] average.ensures((&v,), out)
}

/// The average observable of each bin of cells.
pub fn cross_avg<'a, C, Obs, G: Fn(&Vec<&'a Obs>) -> Obs>(
    cell_observables: &'a Vec<(C, Obs)>,
    cell_id_bins: &Vec<Vec<usize>>,
    average: &G,
) -> (r: Vec<Obs>)
    requires
        forall|b: int, j: int|
            0 <= b < cell_id_bins@.len() && 0 <= j < cell_id_bins@[b]@.len() ==> #[trigger] cell_id_bins@[b]@[j]
                < cell_observables@.len(),
        forall|v: &Vec<&'a Obs>| average.requires((v,)),
    ensures
        r@.len() == cell_id_bins@.len(),
        forall|b: int| 0 <= b < r@.len() ==> averages(*average, members(cell_observables@.map_values(|x: (C, Obs)| &x), cell_id_bins@[b]@), #[trigger] r@[b]),
{
    let mut out: Vec<Obs> = Vec::new();
    let mut b: usize = 0;
    while b < cell_id_bins.len()
        invariant
            b <= cell_id_bins@.len(),
            out@.len() == b,
            forall|bb: int, j: int|
                0 <= bb < cell_id_bins@.len() && 0 <= j < cell_id_bins@[bb]@.len() ==> #[trigger] cell_id_bins@[bb]@[j]
                    < cell_observables@.len(),
            forall|v: &Vec<&'a Obs>| average.requires((v,)),
            forall|bb: int| 0 <= bb < b ==> averages(*average, members(cell_observables@.map_values(|x: (C, Obs)| &x), cell_id_bins@[bb]@), #[trigger] out@[bb]),
        decreases cell_id_bins.len() - b,
    {
        let bin = &cell_id_bins[b];
        let mut xs: Vec<&'a Obs> = Vec::new();
        let mut j: usize = 0;
        while j < bin.len()
            invariant
                j <= bin@.len(),
                bin@ == cell_id_bins@[b as int]@,
                forall|jj: int| 0 <= jj < bin@.len() ==> #[trigger] bin@[jj] < cell_observables@.len(),
                xs@ =~= members(cell_observables@.map_values(|x: (C, Obs)| &x), bin@).take(j as int),
            decreases bin.len() - j,
        {
            xs.push(&cell_observables[bin[j]].1);
            j = j + 1;
        }
        assert(xs@ =~= members(cell_observables@.map_values(|x: (C, Obs)| &x), bin@));
        let avg = average(&xs);
        out.push(avg);
        b = b + 1;
    }
    out
}


/// Every entry of `s` is one of `ids`.
pub open spec fn all_among(s: Seq<usize>, ids: Seq<usize>) -> bool {
    forall|j: int| 0 <= j < s.len() ==> ids.contains(#[trigger] s[j])
}

/// Every cell in a bin is one of `ids`.
pub proof fn lemma_binned_entries(ids: Seq<usize>, ds: Seq<bool>, k: int)
    requires
        0 <= k <= ids.len(),
        ds.len() == ids.len(),
    ensures
        forall|b: int| 0 <= b < bins_after(ids, ds, k).0.len() ==> all_among(#[trigger] bins_after(ids, ds, k).0[b], ids),
        all_among(bins_after(ids, ds, k).1, ids),
    decreases k,
{
    if k > 0 {
        lemma_binned_entries(ids, ds, k - 1);
        let (done, open) = bins_after(ids, ds, k - 1);
        assert(ids.contains(ids[k - 1]));
        if ds[k - 1] {
            let o2 = open.push(ids[k - 1]);
            assert forall|j: int| 0 <= j < o2.len() implies ids.contains(#[trigger] o2[j]) by {
                if j < open.len() {
                    assert(o2[j] == open[j]);
                }
            }
        } else {
            let d2 = done.push(open);
            assert forall|b: int| 0 <= b < d2.len() implies all_among(#[trigger] d2[b], ids) by {
                if b < done.len() {
                    assert(d2[b] == done[b]);
                }
            }
            let o2 = seq![ids[k - 1]];
            assert(all_among(o2, ids));
        }
    }
}

/// Averages observables over the `y`-`z` cross-section: the cells are
/// sorted by the keys of their `x` positions and grouped into bins (see
/// [`bins_along_x`]), and each bin's observables averaged. There must be
/// observables.
pub fn crosssection_average<'a, C, Obs, W: Fn(usize, usize) -> bool, G: Fn(&Vec<&'a Obs>) -> Obs>(
    cell_observables: &'a Vec<(C, Obs)>,
    x_keys: &Vec<i64>,
    within: &W,
    average: &G,
) -> (r: Vec<Obs>)
    requires
        cell_observables@.len() > 0,
        x_keys@.len() == cell_observables@.len(),
        forall|a: usize, b: usize| within.requires((a, b)),
        forall|v: &Vec<&'a Obs>| average.requires((v,)),
    ensures
        exists|ds: Seq<bool>| #![trigger answers(*within, stable_order(x_keys@), ds)] {
            let bins = binned(stable_order(x_keys@), ds);
            &&& answers(*within, stable_order(x_keys@), ds)
            &&& r@.len() == bins.len()
            &&& forall|b: int| 0 <= b < r@.len() ==> averages(*average, members(cell_observables@.map_values(|x: (C, Obs)| &x), bins[b]), #[trigger] r@[b])
        },
{
    let bins = bins_along_x(x_keys, within);
    let n_cells = x_keys.len();
    let ghost ds = choose|ds: Seq<bool>| answers(*within, stable_order(x_keys@), ds) && bins_view(bins@) == binned(stable_order(x_keys@), ds);
    proof {
        let ids = stable_order(x_keys@);
        lemma_stable_order_exists(x_keys@);
        lemma_binned_entries(ids, ds, ids.len() as int);
        let (done, open) = bins_after(ids, ds, ids.len() as int);
        assert forall|b: int, j: int|
            0 <= b < bins@.len() && 0 <= j < bins@[b]@.len() implies #[trigger] bins@[b]@[j] < cell_observables@.len() by {
            assert(bins_view(bins@)[b] == bins@[b]@);
            assert(bins_view(bins@) == done.push(open));
            assert(bins_view(bins@).len() == bins@.len());
            if b < done.len() {
                assert(all_among(done[b], ids));
                assert(done[b] == bins@[b]@);
                assert(ids.contains(done[b][j]));
            } else {
                assert(b == done.len());
                assert(done.push(open)[b] == open);
                assert(all_among(open, ids));
                assert(open == bins@[b]@);
                assert(ids.contains(open[j]));
            }
            let p = choose|p: int| 0 <= p < ids.len() && ids[p] == bins@[b]@[j];
            assert(ids[p] < x_keys@.len());
        }
    }
    let r = cross_avg(cell_observables, &bins, average);
    proof {
        assert forall|b: int| 0 <= b < r@.len() implies averages(*average, members(cell_observables@.map_values(|x: (C, Obs)| &x), binned(stable_order(x_keys@), ds)[b]), #[trigger] r@[b]) by {
            assert(bins_view(bins@)[b] == bins@[b]@);
        }
    }
    r
}

/// `out` is a value that `average` can give for the observables `xs`.
pub open spec fn averages_of<Obs, G: Fn(&Vec<Obs>) -> Obs>(average: G, xs: Seq<Obs>, out: Obs) -> bool {
    exists|v: Vec<Obs>| v@ == xs && #[trigger] average.ensures((&v,), out)
}

/// The `k`-th observables of the `size` profiles that start at `start`.
pub open spec fn block_column<Obs>(profiles: Seq<Vec<Obs>>, start: int, size: int, k: int) -> Seq<Obs> {
    Seq::new(size as nat, |j: int| profiles[start + j]@[k])
}

/// The `k`-th entry of each block.
pub open spec fn across_blocks<Obs>(blocks: Seq<Seq<Obs>>, k: int) -> Seq<Obs> {
    Seq::new(blocks.len(), |b: int| blocks[b][k])
}

/// `blocks` are the block averages of `profiles` cut into `n_blocks` runs of
/// equal length, each run averaged entry by entry.
pub open spec fn block_averages<Obs, G: Fn(&Vec<Obs>) -> Obs>(
    average: G,
    profiles: Seq<Vec<Obs>>,
    n_blocks: int,
    blocks: Seq<Seq<Obs>>,
) -> bool {
    let size = profiles.len() as int / n_blocks;
    let width = profiles[0]@.len();
    &&& blocks.len() == n_blocks
    &&& forall|b: int| 0 <= b < n_blocks ==> (#[trigger] blocks[b]).len() == width
    &&& forall|b: int, k: int|
        0 <= b < n_blocks && 0 <= k < width ==> averages_of(average, block_column(profiles, b * size, size, k), #[trigger] blocks[b][k])
}

/// Block average of a sequence of profiles (one profile of observables per
/// time step): the profiles are cut into `n_blocks` runs of equal length,
/// each run is averaged entry by entry, and the block averages are averaged
/// again. There must be profiles, and where the blocks divide them, every
/// profile is at least as long as the first.
pub fn block_average<Obs: Copy, G: Fn(&Vec<Obs>) -> Obs>(
    avg_observables: &Vec<Vec<Obs>>,
    n_blocks: usize,
    average: &G,
) -> (r: Result<Vec<Obs>, Error>)
    requires
        avg_observables@.len() > 0,
        n_blocks > 0 && avg_observables@.len() % (n_blocks as nat) == 0 ==> forall|i: int|
            0 <= i < avg_observables@.len() ==> (#[trigger] avg_observables@[i])@.len() >= avg_observables@[0]@.len(),
        forall|v: &Vec<Obs>| average.requires((v,)),
    ensures
        n_blocks == 0 ==> (r matches Err(e) && e@ == ErrorView::Generic("Number of blocks is set to 0"@)),
        n_blocks > 0 && avg_observables@.len() % (n_blocks as nat) != 0 ==> (r matches Err(e) && e@
            == ErrorView::Generic("Length of avg_observables not divisible by n_blocks"@)),
        n_blocks > 0 && avg_observables@.len() % (n_blocks as nat) == 0 ==> (r matches Ok(out) && exists|blocks: Seq<Seq<Obs>>|
            #![trigger block_averages(*average, avg_observables@, n_blocks as int, blocks)]
            {
                &&& block_averages(*average, avg_observables@, n_blocks as int, blocks)
                &&& out@.len() == avg_observables@[0]@.len()
                &&& forall|k: int| 0 <= k < out@.len() ==> averages_of(*average, across_blocks(blocks, k), #[trigger] out@[k])
            }),
{
    if n_blocks == 0 {
        return Err(Error::Generic("Number of blocks is set to 0".to_string()));
    }
    let len = avg_observables.len();
    if len % n_blocks != 0 {
        return Err(Error::Generic("Length of avg_observables not divisible by n_blocks".to_string()));
    }
    let block_size = len / n_blocks;
    let width = avg_observables[0].len();
    proof {
        assert(len == n_blocks * block_size) by (nonlinear_arith)
            requires
                block_size == len / n_blocks,
                len % n_blocks == 0,
                n_blocks > 0,
        {
        }
    }
    let ghost profiles = avg_observables@;
    let mut blocks: Vec<Vec<Obs>> = Vec::new();
    let mut b: usize = 0;
    let mut start: usize = 0;
    while b < n_blocks
        invariant
            profiles == avg_observables@,
            len == profiles.len(),
            width == profiles[0]@.len(),
            forall|i: int| 0 <= i < profiles.len() ==> (#[trigger] profiles[i])@.len() >= width,
            forall|v: &Vec<Obs>| average.requires((v,)),
            n_blocks > 0,
            block_size == len / n_blocks,
            len == n_blocks * block_size,
            b <= n_blocks,
            start == b * block_size,
            blocks@.len() == b,
            forall|bb: int| 0 <= bb < b ==> (#[trigger] blocks@[bb])@.len() == width,
            forall|bb: int, k: int|
                0 <= bb < b && 0 <= k < width ==> averages_of(*average, block_column(profiles, bb * block_size, block_size as int, k), #[trigger] blocks@[bb]@[k]),
        decreases n_blocks - b,
    {
        proof {
            assert(start + block_size <= len) by (nonlinear_arith)
                requires
                    start == b * block_size,
                    b < n_blocks,
                    len == n_blocks * block_size,
            {
            }
        }
        let mut block: Vec<Obs> = Vec::new();
        let mut k: usize = 0;
        while k < width
            invariant
                profiles == avg_observables@,
                len == profiles.len(),
                width == profiles[0]@.len(),
                forall|i: int| 0 <= i < profiles.len() ==> (#[trigger] profiles[i])@.len() >= width,
                forall|v: &Vec<Obs>| average.requires((v,)),
                start + block_size <= len,
                k <= width,
                block@.len() == k,
                forall|kk: int| 0 <= kk < k ==> averages_of(*average, block_column(profiles, start as int, block_size as int, kk), #[trigger] block@[kk]),
            decreases width - k,
        {
            let mut column: Vec<Obs> = Vec::new();
            let mut j: usize = 0;
            while j < block_size
                invariant
                    profiles == avg_observables@,
                    len == profiles.len(),
                    width == profiles[0]@.len(),
                    forall|i: int| 0 <= i < profiles.len() ==> (#[trigger] profiles[i])@.len() >= width,
                    start + block_size <= len,
                    k < width,
                    j <= block_size,
                    column@ =~= block_column(profiles, start as int, block_size as int, k as int).take(j as int),
                decreases block_size - j,
            {
                assert(profiles[start + j]@.len() >= width);
                column.push(avg_observables[start + j][k]);
                j = j + 1;
            }
            assert(column@ =~= block_column(profiles, start as int, block_size as int, k as int));
            let value = average(&column);
            block.push(value);
            k = k + 1;
        }
        blocks.push(block);
        proof {
            assert((b + 1) * block_size == b * block_size + block_size) by (nonlinear_arith);
        }
        b = b + 1;
        start = start + block_size;
    }
    let ghost block_seqs = blocks@.map_values(|v: Vec<Obs>| v@);
    assert(block_averages(*average, profiles, n_blocks as int, block_seqs)) by {
        assert forall|bb: int| 0 <= bb < n_blocks implies (#[trigger] block_seqs[bb]).len() == width by {
            assert(block_seqs[bb] == blocks@[bb]@);
        }
        assert forall|bb: int, kk: int|
            0 <= bb < n_blocks && 0 <= kk < width implies averages_of(*average, block_column(profiles, bb * block_size, block_size as int, kk), #[trigger] block_seqs[bb][kk]) by {
            assert(block_seqs[bb] == blocks@[bb]@);
            assert(blocks@[bb]@[kk] == block_seqs[bb][kk]);
        }
    }
    let mut out: Vec<Obs> = Vec::new();
    let mut k: usize = 0;
    while k < width
        invariant
            width == profiles[0]@.len(),
            blocks@.len() == n_blocks,
            forall|bb: int| 0 <= bb < n_blocks ==> (#[trigger] blocks@[bb])@.len() == width,
            block_seqs == blocks@.map_values(|v: Vec<Obs>| v@),
            forall|v: &Vec<Obs>| average.requires((v,)),
            k <= width,
            out@.len() == k,
            forall|kk: int| 0 <= kk < k ==> averages_of(*average, across_blocks(block_seqs, kk), #[trigger] out@[kk]),
        decreases width - k,
    {
        let mut column: Vec<Obs> = Vec::new();
        let mut i: usize = 0;
        while i < blocks.len()
            invariant
                blocks@.len() == n_blocks,
                forall|bb: int| 0 <= bb < n_blocks ==> (#[trigger] blocks@[bb])@.len() == width,
                block_seqs == blocks@.map_values(|v: Vec<Obs>| v@),
                k < width,
                i <= blocks@.len(),
                column@ =~= across_blocks(block_seqs, k as int).take(i as int),
            decreases blocks.len() - i,
        {
            assert(blocks@[i as int]@.len() == width);
            assert(block_seqs[i as int] == blocks@[i as int]@);
            column.push(blocks[i][k]);
            i = i + 1;
        }
        assert(column@ =~= across_blocks(block_seqs, k as int));
        let value = average(&column);
        out.push(value);
        k = k + 1;
    }
    Ok(out)
}


/// The sum of integers.
pub open spec fn int_sum(xs: Seq<i64>) -> int
    decreases xs.len(),
{
    if xs.len() == 0 {
        0
    } else {
        int_sum(xs.drop_last()) + xs.last()
    }
}

/// `out` is the exact mean of `xs`.
pub open spec fn exact_mean(xs: Seq<i64>, out: i64) -> bool {
    xs.len() * out == int_sum(xs)
}

/// The `k`-th observables of all the profiles.
pub open spec fn column(profiles: Seq<Vec<i64>>, k: int) -> Seq<i64> {
    Seq::new(profiles.len(), |i: int| profiles[i]@[k])
}

proof fn lemma_int_sum_concat(a: Seq<i64>, c: Seq<i64>)
    ensures
        int_sum(a + c) == int_sum(a) + int_sum(c),
    decreases c.len(),
{
    if c.len() == 0 {
        assert(a + c =~= a);
    } else {
        lemma_int_sum_concat(a, c.drop_last());
        assert((a + c).drop_last() =~= a + c.drop_last());
    }
}

proof fn lemma_block_sums(profiles: Seq<Vec<i64>>, n_blocks: int, size: int, blocks: Seq<Seq<i64>>, k: int, count: int)
    requires
        0 <= count <= n_blocks,
        size >= 0,
        n_blocks * size == profiles.len(),
        blocks.len() == n_blocks,
        forall|b: int| 0 <= b < n_blocks ==> size * (#[trigger] blocks[b])[k] == int_sum(block_column(profiles, b * size, size, k)),
    ensures
        int_sum(column(profiles, k).take(count * size)) == size * int_sum(across_blocks(blocks, k).take(count)),
    decreases count,
{
    if count == 0 {
        assert(column(profiles, k).take(0) =~= Seq::<i64>::empty());
        assert(across_blocks(blocks, k).take(0) =~= Seq::<i64>::empty());
        assert(size * 0 == 0) by (nonlinear_arith);
    } else {
        let b = count - 1;
        lemma_block_sums(profiles, n_blocks, size, blocks, k, b);
        let col = column(profiles, k);
        assert(count * size == b * size + size) by (nonlinear_arith)
            requires
                b == count - 1,
        ;
        assert(count * size <= n_blocks * size) by (nonlinear_arith)
            requires
                count <= n_blocks,
                size >= 0,
        ;
        assert(b * size >= 0) by (nonlinear_arith)
            requires
                b >= 0,
                size >= 0,
        ;
        assert(col.take(count * size) =~= col.take(b * size) + block_column(profiles, b * size, size, k));
        lemma_int_sum_concat(col.take(b * size), block_column(profiles, b * size, size, k));
        let across = across_blocks(blocks, k);
        assert(across.take(count).drop_last() =~= across.take(b));
        assert(across.take(count).last() == blocks[b][k]);
        assert(int_sum(across.take(count)) == int_sum(across.take(b)) + blocks[b][k]);
        assert(size * int_sum(across.take(count)) == size * int_sum(across.take(b)) + size * blocks[b][k]) by (nonlinear_arith)
            requires
                int_sum(across.take(count)) == int_sum(across.take(b)) + blocks[b][k],
        ;
    }
}

/// Block averaging gives the overall mean: where `average` gives the exact
/// mean of what it is handed (over integers), each entry of a block average
/// (see [`block_average`]) is the mean of that entry over all the profiles,
/// whatever the number of blocks that divides them.
pub proof fn lemma_block_average_is_overall_mean<G: Fn(&Vec<i64>) -> i64>(
    average: G,
    profiles: Seq<Vec<i64>>,
    n_blocks: int,
    blocks: Seq<Seq<i64>>,
    out: Seq<i64>,
)
    requires
        forall|v: &Vec<i64>, o: i64| #[trigger] average.ensures((v,), o) ==> exact_mean(v@, o),
        profiles.len() > 0,
        n_blocks > 0,
        profiles.len() as int % n_blocks == 0,
        forall|i: int| 0 <= i < profiles.len() ==> (#[trigger] profiles[i])@.len() >= profiles[0]@.len(),
        block_averages(average, profiles, n_blocks, blocks),
        out.len() == profiles[0]@.len(),
        forall|k: int| 0 <= k < out.len() ==> averages_of(average, across_blocks(blocks, k), #[trigger] out[k]),
    ensures
        forall|k: int| 0 <= k < out.len() ==> profiles.len() * (#[trigger] out[k]) == int_sum(column(profiles, k)),
{
    let n = profiles.len() as int;
    let size = n / n_blocks;
    assert(n == n_blocks * size) by (nonlinear_arith)
        requires
            size == n / n_blocks,
            n % n_blocks == 0,
            n_blocks > 0,
    ;
    assert(size >= 0) by (nonlinear_arith)
        requires
            size == n / n_blocks,
            n >= 0,
            n_blocks > 0,
    ;
    assert forall|k: int| 0 <= k < out.len() implies profiles.len() * (#[trigger] out[k]) == int_sum(column(profiles, k)) by {
        assert forall|b: int| 0 <= b < n_blocks implies size * (#[trigger] blocks[b])[k] == int_sum(block_column(profiles, b * size, size, k)) by {
            let xs = block_column(profiles, b * size, size, k);
            assert(averages_of(average, xs, blocks[b][k]));
            let v = choose|v: Vec<i64>| v@ == xs && #[trigger] average.ensures((&v,), blocks[b][k]);
            assert(exact_mean(v@, blocks[b][k]));
        }
        let across = across_blocks(blocks, k);
        let v = choose|v: Vec<i64>| v@ == across && #[trigger] average.ensures((&v,), out[k]);
        assert(exact_mean(v@, out[k]));
        lemma_block_sums(profiles, n_blocks, size, blocks, k, n_blocks);
        assert(column(profiles, k).take(n_blocks * size) =~= column(profiles, k));
        assert(across.take(n_blocks) =~= across);
        assert(n * out[k] == size * (n_blocks * out[k])) by (nonlinear_arith)
            requires
                n == n_blocks * size,
        ;
    }
}

} // verus!
