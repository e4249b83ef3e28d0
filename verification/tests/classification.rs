use nalgebra::Vector3;
use spade_core::classification::{find_closest_to_centroid, sort_x};
use spade_core::kmeans::{assign_clusters, initial_centroids};
use spade_core::order::total_order_key;
use spade_core::types::Error;
use std::f64::consts::PI;

type Vector = Vector3<f64>;

fn key(x: f64) -> i64 {
    total_order_key(x.to_bits())
}

fn x_angle(v: &Vector) -> f64 {
    let mut angle = v[2].atan2(v[0]);
    if angle < 0.0 {
        angle += 2.0 * PI;
    }
    angle
}

fn sort_positions(positions: Vec<Vector>) -> Vec<Vector> {
    let y_keys = positions.iter().map(|p| key(p.y)).collect();
    let angle_keys = positions.iter().map(|p| key(x_angle(p))).collect();
    sort_x(positions, &y_keys, &angle_keys)
}

#[test]
fn test_sort_x_ordering() {
    // shuffle the octahedral relative vectors arbitrarily for testing
    let input_positions = vec![
        Vector::new(0.0, 0.0, 0.5),  // Eq: PI/2 rad
        Vector::new(0.0, -0.5, 0.0), // Apical: Bottom
        // Checking arbitrary XZ plane signs for angle computations
        Vector::new(0.5, 0.0, 0.0),  // Eq: 0 rad
        Vector::new(0.0, 0.5, 0.0),  // Apical: Top
        Vector::new(0.0, 0.0, -0.5), // Eq: 3*PI/2 rad
        Vector::new(-0.5, 0.0, 0.0), // Eq: PI rad
    ];

    let sorted = sort_positions(input_positions);

    assert_eq!(sorted.len(), 6);

    // 1. Verify index 0 is top apical (highest Y value)
    assert_eq!(sorted[0], Vector::new(0.0, 0.5, 0.0));

    // 2. Verify index 1 is bottom apical (lowest Y value)
    assert_eq!(sorted[1], Vector::new(0.0, -0.5, 0.0));

    // 3. Verify indexes 2..5 are sorted by their XZ-plane rotation angle ascending
    assert_eq!(sorted[2], Vector::new(0.5, 0.0, 0.0));
    assert_eq!(sorted[3], Vector::new(0.0, 0.0, 0.5));
    assert_eq!(sorted[4], Vector::new(-0.5, 0.0, 0.0));
    assert_eq!(sorted[5], Vector::new(0.0, 0.0, -0.5));
}

#[test]
fn sort_x_breaks_ties_as_max_by_and_min_by_do() {
    // two equal tops: the last is taken; two equal bottoms: the first among
    // the rest (after the top was swapped out) is taken
    let positions = vec!['a', 'b', 'c', 'd'];
    let y_keys = vec![5, 1, 5, 1];
    let angle_keys = vec![0, 0, 0, 0];
    // top 'c' (index 2); rest after swap_remove: [a, b, d]; bottom: 'b'
    assert_eq!(sort_x(positions, &y_keys, &angle_keys), vec!['c', 'b', 'a', 'd']);
}

#[test]
fn sort_x_sorts_the_rest_stably() {
    let positions = vec!['t', 'p', 'q', 'r', 's'];
    let y_keys = vec![9, 3, 3, 0, 3];
    let angle_keys = vec![0, 2, 1, 0, 1];
    // top 't'; rest [s, p, q, r]; bottom 'r'; rest [s, p, q] by angle: s(1), q(1), p(2)
    assert_eq!(sort_x(positions, &y_keys, &angle_keys), vec!['t', 'r', 's', 'q', 'p']);
}

#[test]
fn find_closest_to_centroid_takes_the_first_nearest_member() {
    let candidates = vec![vec!['a', 'b', 'c'], vec!['d']];
    let keys = vec![vec![key(2.0), key(1.0), key(1.0)], vec![key(7.5)]];
    assert_eq!(find_closest_to_centroid(&candidates, &keys).unwrap(), vec!['b', 'd']);
}

#[test]
fn find_closest_to_centroid_refuses_an_empty_cluster() {
    let candidates = vec![vec!['a'], vec![]];
    let keys = vec![vec![key(2.0)], vec![]];
    match find_closest_to_centroid(&candidates, &keys) {
        Err(Error::Generic(m)) => assert_eq!(m, "failed to find descriptor closest to calculated centroid"),
        _ => panic!("expected an error for the empty cluster"),
    }
}

#[test]
fn assign_clusters_puts_each_point_with_its_nearest_centroid() {
    // distances of four points from two centroids
    let keys = vec![
        vec![key(0.1), key(5.0)],
        vec![key(4.0), key(0.2)],
        vec![key(1.0), key(1.0)],
        vec![key(3.0), key(0.0)],
    ];
    let clusters = assign_clusters(&keys, 2);
    assert_eq!(clusters, vec![vec![0, 2], vec![1, 3]]);
}

#[test]
fn assign_clusters_leaves_unused_centroids_empty() {
    let keys = vec![vec![key(0.0), key(1.0), key(2.0)]];
    assert_eq!(assign_clusters(&keys, 3), vec![vec![0], vec![], vec![]]);
}

#[test]
fn initial_centroids_are_distinct_points_of_the_data() {
    let data: Vec<u32> = (0..10).map(|x| x * 3).collect();
    for _ in 0..20 {
        let centroids = initial_centroids(&data, 4);
        assert_eq!(centroids.len(), 4);
        for (i, c) in centroids.iter().enumerate() {
            assert!(data.contains(c));
            assert!(!centroids[..i].contains(c));
        }
    }
}
