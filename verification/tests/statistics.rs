use nalgebra::Vector3;
use spade_core::order::{argsort, total_order_key};
use spade_core::statistics::{
    bins_along_x, block_average, cross_avg, crosssection_average, find_and_fill_bins,
};
use spade_core::types::Error;

type Vector = Vector3<f64>;

const EPS: f64 = 1.0e-12;

/// A cell, by the `x` position of its B atom, with its observable.
type CellObs = (f64, Vector);

fn obs(value: f64) -> Vector {
    Vector::new(value, 0.0, 0.0)
}

fn x_keys(cells: &[CellObs]) -> Vec<i64> {
    cells.iter().map(|(x, _)| total_order_key(x.to_bits())).collect()
}

fn within(cells: &[CellObs], threshold: f64) -> impl Fn(usize, usize) -> bool + '_ {
    move |start: usize, id: usize| (cells[start].0 - cells[id].0).abs() <= threshold
}

fn mean(xs: &Vec<&Vector>) -> Vector {
    xs.iter().fold(Vector::zeros(), |acc, &v| acc + v).map(|x| x / xs.len() as f64)
}

fn mean_of_values(xs: &Vec<Vector>) -> Vector {
    xs.iter().fold(Vector::zeros(), |acc, v| acc + v) / xs.len() as f64
}

fn assert_vec_approx_eq(lhs: &Vector, rhs: &Vector) {
    let diff = lhs - rhs;
    assert!(diff.norm() <= EPS, "lhs={lhs:?}, rhs={rhs:?}");
}

#[test]
fn argsort_orders_observables_by_b_site_x_position() {
    let cell_observables = vec![(2.0, obs(20.0)), (0.0, obs(0.0)), (1.0, obs(10.0))];

    let ids = argsort(&x_keys(&cell_observables));

    assert_eq!(ids, vec![1, 2, 0]);
}

#[test]
fn find_and_fill_bins_groups_sorted_ids_within_threshold() {
    let cell_observables = vec![(0.00, obs(0.0)), (0.05, obs(1.0)), (1.00, obs(2.0)), (1.04, obs(3.0))];

    let bins = find_and_fill_bins(vec![0, 1, 2, 3], &within(&cell_observables, 0.1));

    assert_eq!(bins, vec![vec![0, 1], vec![2, 3]]);
}

#[test]
fn bins_along_x_sorts_then_groups_cells() {
    let cell_observables = vec![(1.04, obs(3.0)), (0.05, obs(1.0)), (1.00, obs(2.0)), (0.00, obs(0.0))];

    let bins = bins_along_x(&x_keys(&cell_observables), &within(&cell_observables, 0.1));

    assert_eq!(bins, vec![vec![3, 1], vec![2, 0]]);
}

#[test]
fn cross_avg_averages_observables_inside_each_bin() {
    let cell_observables = vec![
        (0.0, Vector::new(1.0, 2.0, 3.0)),
        (0.0, Vector::new(3.0, 4.0, 5.0)),
        (1.0, Vector::new(10.0, 20.0, 30.0)),
    ];

    let averaged = cross_avg(&cell_observables, &vec![vec![0, 1], vec![2]], &mean);

    assert_eq!(averaged.len(), 2);
    assert_vec_approx_eq(&averaged[0], &Vector::new(2.0, 3.0, 4.0));
    assert_vec_approx_eq(&averaged[1], &Vector::new(10.0, 20.0, 30.0));
}

#[test]
fn crosssection_average_groups_by_x_and_returns_bin_averages() {
    let cell_observables = vec![
        (0.00, Vector::new(1.0, 0.0, 0.0)),
        (0.05, Vector::new(3.0, 0.0, 0.0)),
        (1.00, Vector::new(10.0, 0.0, 0.0)),
    ];

    let averaged = crosssection_average(
        &cell_observables,
        &x_keys(&cell_observables),
        &within(&cell_observables, 0.1),
        &mean,
    );

    assert_eq!(averaged.len(), 2);
    assert_vec_approx_eq(&averaged[0], &Vector::new(2.0, 0.0, 0.0));
    assert_vec_approx_eq(&averaged[1], &Vector::new(10.0, 0.0, 0.0));
}

#[test]
fn block_average_averages_equal_sized_blocks_then_averages_blocks() {
    let profiles = vec![
        vec![Vector::new(1.0, 0.0, 0.0), Vector::new(10.0, 0.0, 0.0)],
        vec![Vector::new(3.0, 0.0, 0.0), Vector::new(30.0, 0.0, 0.0)],
        vec![Vector::new(5.0, 0.0, 0.0), Vector::new(50.0, 0.0, 0.0)],
        vec![Vector::new(7.0, 0.0, 0.0), Vector::new(70.0, 0.0, 0.0)],
    ];

    let averaged = block_average(&profiles, 2, &mean_of_values).unwrap();

    assert_eq!(averaged.len(), 2);
    assert_vec_approx_eq(&averaged[0], &Vector::new(4.0, 0.0, 0.0));
    assert_vec_approx_eq(&averaged[1], &Vector::new(40.0, 0.0, 0.0));
}

#[test]
fn block_average_errors_when_profiles_do_not_divide_into_blocks() {
    let profiles = vec![vec![obs(1.0)], vec![obs(2.0)], vec![obs(3.0)]];

    assert!(block_average(&profiles, 2, &mean_of_values).is_err());
}

#[test]
fn block_average_refuses_zero_blocks() {
    let profiles = vec![vec![obs(1.0)]];
    match block_average(&profiles, 0, &mean_of_values) {
        Err(Error::Generic(m)) => assert_eq!(m, "Number of blocks is set to 0"),
        _ => panic!("expected an error for zero blocks"),
    }
    match block_average(&vec![vec![obs(1.0)], vec![obs(2.0)]], 3, &mean_of_values) {
        Err(Error::Generic(m)) => assert_eq!(m, "Length of avg_observables not divisible by n_blocks"),
        _ => panic!("expected an error for blocks that do not divide"),
    }
}

#[test]
fn block_average_hands_each_block_its_own_profiles() {
    // with integer observables and a closure that records what it is given
    let profiles: Vec<Vec<u64>> = vec![vec![1, 2], vec![3, 4], vec![5, 6]];
    let averaged = block_average(&profiles, 3, &|xs: &Vec<u64>| xs.iter().sum::<u64>() * 10 + xs.len() as u64)
        .unwrap();
    // blocks of one profile: block k-th entries are (1|2), (3|4), (5|6), each summed as 10 * x + 1;
    // across the 3 blocks: (11 + 31 + 51) * 10 + 3 and (21 + 41 + 61) * 10 + 3
    assert_eq!(averaged, vec![933, 1233]);
}

#[test]
fn find_and_fill_bins_opens_a_bin_when_a_cell_is_too_far() {
    let bins = find_and_fill_bins(vec![4, 2, 7], &|start: usize, id: usize| start == id);
    assert_eq!(bins, vec![vec![4], vec![2], vec![7]]);
    let bins = find_and_fill_bins(vec![4, 2, 7], &|_start: usize, _id: usize| true);
    assert_eq!(bins, vec![vec![4, 2, 7]]);
    let bins = find_and_fill_bins(vec![4, 2], &|_start: usize, _id: usize| false);
    assert_eq!(bins, vec![vec![], vec![4], vec![2]]);
}

#[test]
fn block_average_gives_the_overall_mean_whatever_the_block_count() {
    let profiles: Vec<Vec<i64>> = vec![vec![2, -20], vec![4, -40], vec![6, -60], vec![8, -80]];
    let mean = |xs: &Vec<i64>| xs.iter().sum::<i64>() / xs.len() as i64;
    for n_blocks in [1, 2, 4] {
        assert_eq!(block_average(&profiles, n_blocks, &mean).unwrap(), vec![5, -50]);
    }
}

#[test]
fn find_and_fill_bins_anchors_each_bin_at_its_first_cell() {
    // 0.12 is within 0.1 of 0.06 but not of 0.0, which opened the bin
    let cells: Vec<CellObs> = vec![(0.0, obs(0.0)), (0.06, obs(0.0)), (0.12, obs(0.0))];
    let bins = find_and_fill_bins(vec![0, 1, 2], &within(&cells, 0.1));
    assert_eq!(bins, vec![vec![0, 1], vec![2]]);
}
